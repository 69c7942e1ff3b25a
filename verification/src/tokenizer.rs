//! Text normalization: turning free text into a sequence of tokens.
//!
//! A token is a maximal run of ASCII letters and digits, lower-cased.
//! Every other character (punctuation, whitespace, anything beyond
//! ASCII) separates tokens. Documents and queries are tokenized by the
//! same function, so a query word matches exactly the documents whose
//! content produced the same token.

use vstd::prelude::*;
use vstd::string::StrSliceExecFns;

verus! {

/// A token character: an ASCII letter or digit. Every other character
/// acts as a separator.
pub open spec fn is_token_char(c: char) -> bool {
    ('a' <= c && c <= 'z') || ('A' <= c && c <= 'Z') || ('0' <= c && c <= '9')
}

/// Lower-cases an ASCII capital letter; leaves every other character unchanged.
pub open spec fn lower_char(c: char) -> char {
    if 'A' <= c && c <= 'Z' {
        ((c as u32) + 32) as char
    } else {
        c
    }
}

/// The tokens of `s`, read left to right, while a partial token `cur`
/// (already lower-cased) is being accumulated.
pub open spec fn tokens_rec(s: Seq<char>, cur: Seq<char>) -> Seq<Seq<char>>
    decreases s.len(),
{
    if s.len() == 0 {
        if cur.len() == 0 {
            Seq::empty()
        } else {
            seq![cur]
        }
    } else if is_token_char(s[0]) {
        tokens_rec(s.drop_first(), cur.push(lower_char(s[0])))
    } else if cur.len() == 0 {
        tokens_rec(s.drop_first(), cur)
    } else {
        seq![cur] + tokens_rec(s.drop_first(), Seq::empty())
    }
}

/// The sequence of tokens of a text: maximal runs of token characters,
/// lower-cased, in order of appearance (duplicates kept).
pub open spec fn tokens_of(s: Seq<char>) -> Seq<Seq<char>> {
    tokens_rec(s, Seq::empty())
}

/// The set of distinct tokens of a text.
pub open spec fn token_set_of(s: Seq<char>) -> Set<Seq<char>> {
    tokens_of(s).to_set()
}

/// The views of a sequence of strings.
pub open spec fn token_views(ts: Seq<String>) -> Seq<Seq<char>> {
    Seq::new(ts.len(), |i: int| ts[i]@)
}

/// Exec test for `is_token_char`.
fn token_char(c: char) -> (r: bool)
    ensures
        r == is_token_char(c),
{
    ('a' <= c && c <= 'z') || ('A' <= c && c <= 'Z') || ('0' <= c && c <= '9')
}

/// Exec counterpart of `lower_char`.
fn to_lower(c: char) -> (r: char)
    ensures
        r == lower_char(c),
{
    if 'A' <= c && c <= 'Z' {
        ((c as u8) + 32) as char
    } else {
        c
    }
}

/// Relies on `String::push`: appends the given character to the end of
/// the string.
#[verifier::external_body]
fn push_char(s: &mut String, c: char)
    ensures
        final(s)@ == old(s)@.push(c),
{
    s.push(c)
}

/// Splits `text` into its normalized tokens: lower-cased maximal runs
/// of ASCII letters and digits, in order of appearance.
pub fn tokenize(text: &str) -> (tokens: Vec<String>)
    ensures
        token_views(tokens@) == tokens_of(text@),
{
    let n: usize = text.unicode_len();
    let mut tokens: Vec<String> = Vec::new();
    let mut cur: String = String::new();
    let mut i: usize = 0;
    proof {
        assert(text@.skip(0) =~= text@);
        assert(token_views(tokens@) =~= Seq::empty());
        assert(Seq::<Seq<char>>::empty() + tokens_rec(text@, cur@) =~= tokens_rec(text@, cur@));
    }
    while i < n
        invariant
            i <= n,
            n == text@.len(),
            token_views(tokens@) + tokens_rec(text@.skip(i as int), cur@) == tokens_of(text@),
        decreases n - i,
    {
        let ghost prev_tokens = tokens@;
        let ghost prev_cur = cur@;
        let c = text.get_char(i);
        proof {
            assert(text@.skip(i as int).len() > 0);
            assert(text@.skip(i as int)[0] == text@[i as int]);
            assert(text@.skip(i as int).drop_first() =~= text@.skip(i as int + 1));
        }
        if token_char(c) {
            push_char(&mut cur, to_lower(c));
            proof {
                assert(cur@ == prev_cur.push(lower_char(c)));
                assert(tokens_rec(text@.skip(i as int), prev_cur) == tokens_rec(
                    text@.skip(i as int + 1),
                    cur@,
                ));
            }
        } else if !cur.as_str().is_empty() {
            tokens.push(cur);
            cur = String::new();
            proof {
                assert(token_views(tokens@) =~= token_views(prev_tokens) + seq![prev_cur]);
                assert(tokens_rec(text@.skip(i as int), prev_cur) == seq![prev_cur] + tokens_rec(
                    text@.skip(i as int + 1),
                    cur@,
                ));
                assert(token_views(prev_tokens) + (seq![prev_cur] + tokens_rec(
                    text@.skip(i as int + 1),
                    cur@,
                )) =~= (token_views(prev_tokens) + seq![prev_cur]) + tokens_rec(
                    text@.skip(i as int + 1),
                    cur@,
                ));
            }
        } else {
            proof {
                assert(tokens_rec(text@.skip(i as int), cur@) == tokens_rec(
                    text@.skip(i as int + 1),
                    cur@,
                ));
            }
        }
        i = i + 1;
    }
    proof {
        assert(text@.skip(n as int).len() == 0);
    }
    if !cur.as_str().is_empty() {
        let ghost prev_tokens = tokens@;
        let ghost prev_cur = cur@;
        tokens.push(cur);
        proof {
            assert(token_views(tokens@) =~= token_views(prev_tokens) + seq![prev_cur]);
            assert(tokens_rec(text@.skip(n as int), prev_cur) == seq![prev_cur]);
        }
    } else {
        proof {
            assert(token_views(tokens@) + tokens_rec(text@.skip(n as int), cur@) =~= token_views(
                tokens@,
            ));
        }
    }
    tokens
}

} // verus!
