//! Text handling: the library's tokenizer, and decimal rendering of
//! counts for the result message.
//!
//! The tokenizer splits on single spaces (empty pieces included, so
//! consecutive spaces and the empty text produce empty tokens, as the
//! callers of the engine expect) and then lowercases each piece.

use vstd::prelude::*;
use vstd::string::StrSliceExecFns;
use vstd::string::StringExecFns;

verus! {

/// What `str::to_lowercase` returns for a text with these characters.
pub uninterp spec fn lower_of(s: Seq<char>) -> Seq<char>;

/// Relies on str::to_lowercase: the lowered text is a function of the
/// input characters alone.
#[verifier::external_body]
fn lowercase(piece: &str) -> (r: String)
    ensures
        r@ == lower_of(piece@),
{
    piece.to_lowercase()
}

/// The pieces of `s` between single spaces, `cur` being the piece read
/// so far: every maximal run of non-space characters, empty runs
/// included.
pub open spec fn split_acc(s: Seq<char>, cur: Seq<char>) -> Seq<Seq<char>>
    decreases s.len(),
{
    if s.len() == 0 {
        seq![cur]
    } else if s[0] == ' ' {
        seq![cur] + split_acc(s.drop_first(), Seq::empty())
    } else {
        split_acc(s.drop_first(), cur.push(s[0]))
    }
}

/// The pieces of `s` between spaces. The empty text has one empty
/// piece, as `split` on a single separator gives.
pub open spec fn split_spaces(s: Seq<char>) -> Seq<Seq<char>> {
    split_acc(s, Seq::empty())
}

/// What the tokenizer returns: the pieces between spaces, lowercased.
pub open spec fn spec_tokenize(s: Seq<char>) -> Seq<Seq<char>> {
    split_spaces(s).map(|i: int, p: Seq<char>| lower_of(p))
}

/// Splits the text on single spaces and lowercases each piece.
pub fn tokenizer(s: String) -> (r: Vec<String>)
    ensures
        r.deep_view() == spec_tokenize(s@),
{
    let st = s.as_str();
    let n = st.unicode_len();
    let mut out: Vec<String> = Vec::new();
    let mut cur = String::new();
    let ghost mut done: Seq<Seq<char>> = Seq::empty();
    proof {
        assert(s@.skip(0) =~= s@);
        assert(done + split_acc(s@, Seq::empty()) =~= split_acc(s@, Seq::empty()));
    }
    let mut i: usize = 0;
    while i < n
        invariant
            i <= n,
            n == s@.len(),
            st@ == s@,
            split_spaces(s@) == done + split_acc(s@.skip(i as int), cur@),
            out@.len() == done.len(),
            forall|j: int| 0 <= j < done.len() ==> out@[j]@ == lower_of(done[j]),
        decreases n - i,
    {
        let c = st.get_char(i);
        proof {
            assert(s@.skip(i as int)[0] == s@[i as int]);
            assert(s@.skip(i as int).drop_first() =~= s@.skip(i + 1));
        }
        if c == ' ' {
            let low = lowercase(cur.as_str());
            out.push(low);
            proof {
                done = done.push(cur@);
            }
            cur = String::new();
        } else {
            let piece = st.substring_char(i, i + 1);
            proof {
                assert(piece@ =~= seq![s@[i as int]]);
                assert(cur@ + piece@ =~= cur@.push(s@[i as int]));
            }
            cur.append(piece);
        }
        i = i + 1;
    }
    proof {
        assert(s@.skip(n as int) =~= Seq::<char>::empty());
        assert(split_acc(s@.skip(n as int), cur@) =~= seq![cur@]);
    }
    let low = lowercase(cur.as_str());
    out.push(low);
    proof {
        done = done.push(cur@);
        assert(split_spaces(s@) =~= done);
        assert(out.deep_view() =~= spec_tokenize(s@)) by {
            assert(forall|j: int|
                0 <= j < done.len() ==> out.deep_view()[j] == lower_of(done[j]));
        }
    }
    out
}

/// The character for one decimal digit.
pub open spec fn digit_char(d: nat) -> char {
    if d == 0 {
        '0'
    } else if d == 1 {
        '1'
    } else if d == 2 {
        '2'
    } else if d == 3 {
        '3'
    } else if d == 4 {
        '4'
    } else if d == 5 {
        '5'
    } else if d == 6 {
        '6'
    } else if d == 7 {
        '7'
    } else if d == 8 {
        '8'
    } else {
        '9'
    }
}

/// The decimal digits of `n`, most significant first.
pub open spec fn dec_spec(n: nat) -> Seq<char>
    decreases n,
{
    if n < 10 {
        seq![digit_char(n)]
    } else {
        dec_spec(n / 10).push(digit_char(n % 10))
    }
}

fn digit_str(d: usize) -> (r: &'static str)
    requires
        d < 10,
    ensures
        r@ == seq![digit_char(d as nat)],
{
    proof {
        reveal_strlit("0");
        reveal_strlit("1");
        reveal_strlit("2");
        reveal_strlit("3");
        reveal_strlit("4");
        reveal_strlit("5");
        reveal_strlit("6");
        reveal_strlit("7");
        reveal_strlit("8");
        reveal_strlit("9");
    }
    let r = if d == 0 {
        "0"
    } else if d == 1 {
        "1"
    } else if d == 2 {
        "2"
    } else if d == 3 {
        "3"
    } else if d == 4 {
        "4"
    } else if d == 5 {
        "5"
    } else if d == 6 {
        "6"
    } else if d == 7 {
        "7"
    } else if d == 8 {
        "8"
    } else {
        "9"
    };
    proof {
        assert(r@ =~= seq![digit_char(d as nat)]);
    }
    r
}

/// Renders `n` in decimal.
pub fn dec_str(n: usize) -> (r: String)
    ensures
        r@ == dec_spec(n as nat),
    decreases n,
{
    if n < 10 {
        String::from_str(digit_str(n))
    } else {
        let mut s = dec_str(n / 10);
        s.append(digit_str(n % 10));
        proof {
            assert(dec_spec((n / 10) as nat) + seq![digit_char((n % 10) as nat)] =~= dec_spec(
                n as nat,
            ));
        }
        s
    }
}

} // verus!
