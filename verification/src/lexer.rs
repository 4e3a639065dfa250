//! The lexer: splits raw text into whitespace-delimited tokens.
//!
//! Tokens are the maximal runs of non-whitespace characters; empty or
//! all-whitespace input yields no tokens. There is no escaping, quoting,
//! or comment syntax, and lexing never fails.

use vstd::prelude::*;

verus! {

/// Whether a character has the Unicode `White_Space` property, the
/// separator class tokens are split on.
pub open spec fn is_wspace(c: char) -> bool {
    let u = c as u32;
    (0x9 <= u <= 0xd) || u == 0x20 || u == 0x85 || u == 0xa0 || u == 0x1680 || (0x2000 <= u
        <= 0x200a) || u == 0x2028 || u == 0x2029 || u == 0x202f || u == 0x205f || u == 0x3000
}

/// Run-time check for [`is_wspace`].
fn wspace(c: char) -> (r: bool)
    ensures
        r == is_wspace(c),
{
    let u = c as u32;
    (0x9 <= u && u <= 0xd) || u == 0x20 || u == 0x85 || u == 0xa0 || u == 0x1680 || (0x2000 <= u
        && u <= 0x200a) || u == 0x2028 || u == 0x2029 || u == 0x202f || u == 0x205f || u == 0x3000
}

/// The token sequence of a text, built character by character: a
/// whitespace character closes any open token, a non-whitespace character
/// extends the token it follows or opens a new one.
pub open spec fn lex_spec(s: Seq<char>) -> Seq<Seq<char>>
    decreases s.len(),
{
    if s.len() == 0 {
        Seq::empty()
    } else {
        let prev = lex_spec(s.drop_last());
        let c = s.last();
        if is_wspace(c) {
            prev
        } else if s.len() >= 2 && !is_wspace(s[s.len() - 2]) {
            prev.update(prev.len() - 1, prev.last().push(c))
        } else {
            prev.push(seq![c])
        }
    }
}

/// Splits a text into its whitespace-delimited tokens.
pub fn lex(text: &str) -> (r: Vec<String>)
    ensures
        r.deep_view() == lex_spec(text@),
{
    let n = text.unicode_len();
    let mut out: Vec<String> = Vec::new();
    let mut in_token = false;
    proof {
        assert(text@.take(0) =~= Seq::<char>::empty());
    }
    let mut i: usize = 0;
    while i < n
        invariant
            0 <= i <= n,
            n == text@.len(),
            in_token == (i > 0 && !is_wspace(text@[i - 1])),
            out.deep_view() == lex_spec(text@.take(i as int)),
            in_token ==> out.len() >= 1,
        decreases n - i,
    {
        let ghost prev = out.deep_view();
        proof {
            assert(text@.take(i + 1).drop_last() =~= text@.take(i as int));
        }
        let c = text.get_char(i);
        if wspace(c) {
            in_token = false;
        } else if in_token {
            let piece = text.substring_char(i, i + 1);
            proof {
                assert(piece@ =~= seq![text@[i as int]]);
            }
            let mut t = match out.pop() {
                Some(t) => t,
                None => {
                    proof {
                        assert(false);
                    }
                    String::new()
                },
            };
            t.append(piece);
            out.push(t);
            proof {
                assert(t@ =~= prev.last().push(text@[i as int]));
                assert(out.deep_view() =~~= prev.update(prev.len() - 1, prev.last().push(
                    text@[i as int],
                )));
            }
        } else {
            let piece = text.substring_char(i, i + 1);
            proof {
                assert(piece@ =~= seq![text@[i as int]]);
            }
            out.push(piece.to_owned());
            in_token = true;
            proof {
                assert(out.deep_view() =~~= prev.push(seq![text@[i as int]]));
            }
        }
        i = i + 1;
    }
    proof {
        assert(text@.take(n as int) =~= text@);
    }
    out
}

} // verus!
