//! Unescaping of the basic XML entities in attribute values.
//!
//! The five named entities (`&amp;`, `&lt;`, `&gt;`, `&quot;`, `&apos;`)
//! are replaced by the characters they stand for. An ampersand that does
//! not open one of them, or an entity left unterminated, makes the value
//! malformed, which the extraction strategies report as a syntax error;
//! the failure carries the index of the offending ampersand.

use crate::text::{copy_range, find_char, find_from, lemma_find_from};
use vstd::prelude::*;

verus! {

/// The character a basic entity name stands for, if it names one.
pub open spec fn entity_char(name: Seq<char>) -> Option<char> {
    if name == seq!['a', 'm', 'p'] {
        Some('&')
    } else if name == seq!['l', 't'] {
        Some('<')
    } else if name == seq!['g', 't'] {
        Some('>')
    } else if name == seq!['q', 'u', 'o', 't'] {
        Some('"')
    } else if name == seq!['a', 'p', 'o', 's'] {
        Some('\'')
    } else {
        None
    }
}

/// What unescaping the suffix of `t` that starts at `pos` yields: the
/// replaced text, or the index of an ampersand that opens no basic
/// entity.
pub open spec fn unescape_from(t: Seq<char>, pos: int) -> Result<Seq<char>, int>
    decreases t.len() - pos,
        when 0 <= pos <= t.len()
{
    if pos >= t.len() {
        Ok(Seq::empty())
    } else if t[pos] == '&' {
        let e = find_from(t, pos + 1, ';');
        if e >= t.len() {
            Err(pos)
        } else {
            match entity_char(t.subrange(pos + 1, e)) {
                None => Err(pos),
                Some(c) => {
                    proof {
                        lemma_find_from(t, pos + 1, ';');
                    }
                    match unescape_from(t, e + 1) {
                        Err(p) => Err(p),
                        Ok(rest) => Ok(seq![c] + rest),
                    }
                },
            }
        }
    } else {
        match unescape_from(t, pos + 1) {
            Err(p) => Err(p),
            Ok(rest) => Ok(seq![t[pos]] + rest),
        }
    }
}

/// What unescaping a whole attribute value yields.
pub open spec fn unescape_spec(t: Seq<char>) -> Result<Seq<char>, int> {
    unescape_from(t, 0)
}

/// Looks an entity name up among the five basic entities.
fn entity_lookup(name: &Vec<char>) -> (r: Option<char>)
    ensures
        r == entity_char(name@),
{
    if name.len() == 3 && name[0] == 'a' && name[1] == 'm' && name[2] == 'p' {
        proof {
            assert(name@ =~= seq!['a', 'm', 'p']);
        }
        Some('&')
    } else if name.len() == 2 && name[0] == 'l' && name[1] == 't' {
        proof {
            assert(name@ =~= seq!['l', 't']);
        }
        Some('<')
    } else if name.len() == 2 && name[0] == 'g' && name[1] == 't' {
        proof {
            assert(name@ =~= seq!['g', 't']);
        }
        Some('>')
    } else if name.len() == 4 && name[0] == 'q' && name[1] == 'u' && name[2] == 'o' && name[3]
        == 't' {
        proof {
            assert(name@ =~= seq!['q', 'u', 'o', 't']);
        }
        Some('"')
    } else if name.len() == 4 && name[0] == 'a' && name[1] == 'p' && name[2] == 'o' && name[3]
        == 's' {
        proof {
            assert(name@ =~= seq!['a', 'p', 'o', 's']);
        }
        Some('\'')
    } else {
        None
    }
}

/// Replaces the basic entities in `t`, or reports the index of an
/// ampersand that opens no basic entity.
pub fn unescape(t: &Vec<char>) -> (r: Result<Vec<char>, usize>)
    ensures
        match r {
            Ok(v) => unescape_spec(t@) == Ok::<Seq<char>, int>(v@),
            Err(p) => unescape_spec(t@) == Err::<Seq<char>, int>(p as int) && p < t@.len(),
        },
{
    let mut acc: Vec<char> = Vec::new();
    let mut i: usize = 0;
    while i < t.len()
        invariant
            0 <= i <= t@.len(),
            unescape_from(t@, 0) == match unescape_from(t@, i as int) {
                Err(p) => Err::<Seq<char>, int>(p),
                Ok(rest) => Ok(acc@ + rest),
            },
        decreases t@.len() - i,
    {
        let ghost prev = i as int;
        if t[i] == '&' {
            let e = find_char(t, i + 1, ';');
            proof {
                lemma_find_from(t@, i + 1, ';');
            }
            if e == t.len() {
                return Err(i);
            }
            let name = copy_range(t, i + 1, e);
            match entity_lookup(&name) {
                None => {
                    return Err(i);
                },
                Some(c) => {
                    let ghost acc0 = acc@;
                    acc.push(c);
                    i = e + 1;
                    proof {
                        if unescape_from(t@, i as int) is Ok {
                            let rest = unescape_from(t@, i as int)->Ok_0;
                            assert(unescape_from(t@, prev) == Ok::<Seq<char>, int>(seq![c] + rest));
                            assert(acc@ + rest =~= acc0 + (seq![c] + rest));
                        }
                    }
                },
            }
        } else {
            let c = t[i];
            let ghost acc0 = acc@;
            acc.push(c);
            i = i + 1;
            proof {
                if unescape_from(t@, i as int) is Ok {
                    let rest = unescape_from(t@, i as int)->Ok_0;
                    assert(unescape_from(t@, prev) == Ok::<Seq<char>, int>(seq![c] + rest));
                    assert(acc@ + rest =~= acc0 + (seq![c] + rest));
                }
            }
        }
    }
    proof {
        assert(unescape_from(t@, t@.len() as int) == Ok::<Seq<char>, int>(Seq::empty()));
        assert(acc@ + Seq::<char>::empty() =~= acc@);
    }
    Ok(acc)
}

} // verus!
