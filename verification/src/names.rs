//! Random fantasy names for heroes: a prefix and a suffix, at most twenty characters.
use rand::rngs::StdRng;
use rand::Rng;
use vstd::prelude::*;
use vstd::string::{StrSliceExecFns, StringExecFns};

verus! {

#[verifier::external_type_specification]
#[verifier::external_body]
pub struct ExStdRng(StdRng);

/// The longest name, in characters.
pub const MAX_NAME_CHARS: usize = 20;

/// How many prefixes and how many suffixes there are to choose from.
pub const NAME_PARTS: usize = 10;

/// The prefix with number `i`.
pub open spec fn prefix_text(i: int) -> Seq<char> {
    if i == 0 {
        "Al"@
    } else if i == 1 {
        "Bran"@
    } else if i == 2 {
        "Dar"@
    } else if i == 3 {
        "El"@
    } else if i == 4 {
        "Gar"@
    } else if i == 5 {
        "Mal"@
    } else if i == 6 {
        "Ser"@
    } else if i == 7 {
        "Tor"@
    } else if i == 8 {
        "Val"@
    } else {
        "Wyn"@
    }
}

/// The suffix with number `i`.
pub open spec fn suffix_text(i: int) -> Seq<char> {
    if i == 0 {
        "a"@
    } else if i == 1 {
        "dor"@
    } else if i == 2 {
        "en"@
    } else if i == 3 {
        "ian"@
    } else if i == 4 {
        "is"@
    } else if i == 5 {
        "mir"@
    } else if i == 6 {
        "on"@
    } else if i == 7 {
        "ric"@
    } else if i == 8 {
        "us"@
    } else {
        "wen"@
    }
}

/// `s` cut to its first `MAX_NAME_CHARS` characters.
pub open spec fn clipped(s: Seq<char>) -> Seq<char> {
    if s.len() <= MAX_NAME_CHARS {
        s
    } else {
        s.take(MAX_NAME_CHARS as int)
    }
}

/// The name made of prefix `p` and suffix `s`.
pub open spec fn name_text(p: int, s: int) -> Seq<char> {
    clipped(prefix_text(p) + suffix_text(s))
}

fn prefix(i: usize) -> (r: &'static str)
    requires
        i < NAME_PARTS,
    ensures
        r@ == prefix_text(i as int),
{
    match i {
        0 => "Al",
        1 => "Bran",
        2 => "Dar",
        3 => "El",
        4 => "Gar",
        5 => "Mal",
        6 => "Ser",
        7 => "Tor",
        8 => "Val",
        _ => "Wyn",
    }
}

fn suffix(i: usize) -> (r: &'static str)
    requires
        i < NAME_PARTS,
    ensures
        r@ == suffix_text(i as int),
{
    match i {
        0 => "a",
        1 => "dor",
        2 => "en",
        3 => "ian",
        4 => "is",
        5 => "mir",
        6 => "on",
        7 => "ric",
        8 => "us",
        _ => "wen",
    }
}

/// The name made of prefix number `p` and suffix number `s`, cut to `MAX_NAME_CHARS`
/// characters.
pub fn compose_name(p: usize, s: usize) -> (r: String)
    requires
        p < NAME_PARTS,
        s < NAME_PARTS,
    ensures
        r@ == name_text(p as int, s as int),
{
    let mut name = prefix(p).to_owned();
    name.append(suffix(s));
    let n = name.as_str().unicode_len();
    if n <= MAX_NAME_CHARS {
        name
    } else {
        name.as_str().substring_char(0, MAX_NAME_CHARS).to_owned()
    }
}

/// A number below `n` from `rng`, by `rand::Rng::gen_range` on `0..n`; rand documents that the
/// result lies in the range, and that an empty range panics. Which number comes out depends on
/// the state of `rng`, and nothing more is said of it.
#[verifier::external_body]
fn pick_below(rng: &mut StdRng, n: usize) -> (r: usize)
    requires
        n > 0,
    ensures
        r < n,
{
    rng.gen_range(0..n)
}

/// A random hero name: a random prefix and a random suffix, at most `MAX_NAME_CHARS`
/// characters.
pub fn generate(rng: &mut StdRng) -> (r: String)
    ensures
        exists|p: int, s: int|
            0 <= p < NAME_PARTS && 0 <= s < NAME_PARTS && r@ == name_text(p, s),
        0 < r@.len() <= MAX_NAME_CHARS,
{
    let p = pick_below(rng, NAME_PARTS);
    let s = pick_below(rng, NAME_PARTS);
    let r = compose_name(p, s);
    proof {
        lemma_name_length(p as int, s as int);
    }
    r
}

/// Every name has between one and `MAX_NAME_CHARS` characters.
pub proof fn lemma_name_length(p: int, s: int)
    requires
        0 <= p < NAME_PARTS,
        0 <= s < NAME_PARTS,
    ensures
        0 < name_text(p, s).len() <= MAX_NAME_CHARS,
{
    reveal_strlit("Al");
    reveal_strlit("Bran");
    reveal_strlit("Dar");
    reveal_strlit("El");
    reveal_strlit("Gar");
    reveal_strlit("Mal");
    reveal_strlit("Ser");
    reveal_strlit("Tor");
    reveal_strlit("Val");
    reveal_strlit("Wyn");
    reveal_strlit("a");
    reveal_strlit("dor");
    reveal_strlit("en");
    reveal_strlit("ian");
    reveal_strlit("is");
    reveal_strlit("mir");
    reveal_strlit("on");
    reveal_strlit("ric");
    reveal_strlit("us");
    reveal_strlit("wen");
}

} // verus!
