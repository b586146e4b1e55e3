//! What the sonar says aloud: a fortune when it starts, and the names of systems
//! spelled out.

use vstd::prelude::*;
use rand::RngExt;
use crate::ansi::join_spaced;
use crate::text::{char_upper, chars_of, char_to_uppercase};

verus! {

/// The fortunes, in order.
pub open spec fn fortune_of(i: int) -> Seq<char> {
    if i == 0 {
        "I talk in intel when you're not watching."@
    } else if i == 1 {
        "All their ice are belong to us."@
    } else if i == 2 {
        "Locked, stocked, and ready to interrupt your Netflix."@
    } else {
        "We don't need showers where we are going."@
    }
}

/// How many fortunes there are.
pub const FORTUNES: usize = 4;

/// The fortune at position `i`.
pub fn fortune_text(i: usize) -> (r: &'static str)
    requires
        i < FORTUNES,
    ensures
        r@ == fortune_of(i as int),
{
    if i == 0 {
        "I talk in intel when you're not watching."
    } else if i == 1 {
        "All their ice are belong to us."
    } else if i == 2 {
        "Locked, stocked, and ready to interrupt your Netflix."
    } else {
        "We don't need showers where we are going."
    }
}

/// Calls `rand::RngExt::random_range(0..n)` on the thread's generator. Trusted:
/// the result is below `n`, which must not be zero (rand panics on an empty
/// range); which number comes is chance.
#[verifier::external_body]
fn random_below(n: usize) -> (r: usize)
    requires
        n > 0,
    ensures
        r < n,
{
    rand::rng().random_range(0..n)
}

/// A fortune picked at random.
pub fn fortune() -> (r: &'static str)
    ensures
        exists|i: int| 0 <= i < FORTUNES && r@ == fortune_of(i),
{
    let i = random_below(FORTUNES);
    fortune_text(i)
}

/// How a character of a system's name is spoken: `-` as "Tac", others upper-cased.
pub open spec fn spoken(c: char) -> Seq<char> {
    if c == '-' {
        "Tac"@
    } else {
        char_upper(c)
    }
}

/// A system's name spelled out: each character spoken, with spaces between them,
/// and a full stop at the end.
pub open spec fn spelled(s: Seq<char>) -> Seq<char> {
    join_spaced(s.map_values(|c: char| spoken(c))) + "."@
}

/// The name `s` spelled out.
pub fn abbreviate(s: &str) -> (r: String)
    ensures
        r@ == spelled(s@),
{
    let cs = chars_of(s);
    let ghost pv = cs@.map_values(|c: char| spoken(c));
    let mut out = String::new();
    let mut i: usize = 0;
    proof {
        reveal_strlit(" ");
        reveal_strlit("Tac");
        reveal_strlit(".");
    }
    assert(pv.take(0) =~= Seq::<Seq<char>>::empty());
    while i < cs.len()
        invariant
            i <= cs.len(),
            cs@ == s@,
            pv == cs@.map_values(|c: char| spoken(c)),
            out@ == join_spaced(pv.take(i as int)),
        decreases cs.len() - i,
    {
        let ghost t = pv.take(i as int + 1);
        assert(t.drop_last() =~= pv.take(i as int));
        assert(t.last() == pv[i as int]);
        if i > 0 {
            out.append(" ");
        }
        if cs[i] == '-' {
            out.append("Tac");
        } else {
            let up = char_to_uppercase(cs[i]);
            out.append(up.as_str());
        }
        assert(out@ =~= join_spaced(t));
        i = i + 1;
    }
    assert(pv.take(cs.len() as int) =~= pv);
    out.append(".");
    out
}

} // verus!
