//! Utility-name discovery from the multi-call binary's help banner.
//!
//! The binary, run with no arguments, prints a banner that lists the
//! utilities it supports. The list is bounded by a fixed marker phrase, a
//! list-start delimiter after the marker, and a known terminal entry name
//! after that; the names between the delimiter and the end of the terminal
//! entry are separated by commas. `names_of_banner` is the mathematical
//! description of that extraction and `list_supported_names` the verified
//! parser. The caller captures the banner and hands it in as bytes.

use vstd::prelude::*;

use crate::scan::char_bytes;
use crate::scan::find;
use crate::scan::find_from;
use crate::scan::lit_bytes;
use crate::scan::matches_at;
use crate::scan::trim;
use crate::scan::trim_bytes;

verus! {

/// Why discovery of the utility names failed.
#[derive(Clone, Copy, Debug, PartialEq, Eq, Structural)]
pub enum DiscoveryError {
    /// The banner was not valid UTF-8 text.
    InvalidEncoding,
    /// The marker phrase does not occur in the banner.
    MarkerNotFound,
    /// The list-start delimiter or the terminal entry is missing.
    MalformedList,
}

/// The marker phrase that precedes the utility list in the banner.
pub open spec fn marker() -> Seq<u8> {
    char_bytes("Currently defined functions"@)
}

/// The delimiter at which the utility list starts.
pub open spec fn list_start() -> Seq<u8> {
    char_bytes("[,"@)
}

/// The known terminal entry that ends the utility list.
pub open spec fn terminal() -> Seq<u8> {
    char_bytes("yes"@)
}

fn marker_bytes() -> (r: Vec<u8>)
    ensures
        r@ == marker(),
{
    proof {
        reveal_strlit("Currently defined functions");
    }
    lit_bytes("Currently defined functions")
}

fn list_start_bytes() -> (r: Vec<u8>)
    ensures
        r@ == list_start(),
{
    proof {
        reveal_strlit("[,");
    }
    lit_bytes("[,")
}

fn terminal_bytes() -> (r: Vec<u8>)
    ensures
        r@ == terminal(),
{
    proof {
        reveal_strlit("yes");
    }
    lit_bytes("yes")
}

/// Whether a byte sequence is valid UTF-8 text: what `core::str::from_utf8`
/// accepts, a function of the bytes alone.
pub uninterp spec fn utf8_valid(bytes: Seq<u8>) -> bool;

/// Relies on core::str::from_utf8: it returns `Ok` exactly when the bytes
/// are valid UTF-8, and that depends on the bytes alone.
#[verifier::external_body]
fn check_utf8(bytes: &[u8]) -> (r: bool)
    ensures
        r == utf8_valid(bytes@),
{
    core::str::from_utf8(bytes).is_ok()
}

/// The comma-separated tokens of `s` from position `start` on, each
/// trimmed of surrounding whitespace.
pub open spec fn split_names(s: Seq<u8>, start: int) -> Seq<Seq<u8>>
    decreases s.len() - start,
{
    if !(0 <= start <= s.len()) {
        Seq::empty()
    } else {
        match find_from(s, seq![44u8], start) {
            Option::None => seq![trim(s.subrange(start, s.len() as int))],
            Option::Some(c) => if start <= c < s.len() {
                seq![trim(s.subrange(start, c))] + split_names(s, c + 1)
            } else {
                Seq::empty()
            },
        }
    }
}

/// What discovery extracts from a banner: the trimmed comma-separated
/// tokens strictly after the first list-start delimiter that follows the
/// marker, up to and including the first terminal entry after that
/// delimiter; or the error that says which boundary is missing.
pub open spec fn names_of_banner(banner: Seq<u8>) -> Result<Seq<Seq<u8>>, DiscoveryError> {
    match find_from(banner, marker(), 0) {
        Option::None => Err(DiscoveryError::MarkerNotFound),
        Option::Some(m) => match find_from(banner, list_start(), m) {
            Option::None => Err(DiscoveryError::MalformedList),
            Option::Some(d) => match find_from(banner, terminal(), d + list_start().len()) {
                Option::None => Err(DiscoveryError::MalformedList),
                Option::Some(t) => Ok(
                    split_names(
                        banner.subrange(d + list_start().len(), t + terminal().len()),
                        0,
                    ),
                ),
            },
        },
    }
}

/// Extracts the trimmed comma-separated tokens of `s[start..end]`.
fn collect_names(s: &[u8], start: usize, end: usize) -> (r: Vec<Vec<u8>>)
    requires
        start <= end <= s@.len(),
    ensures
        r.deep_view() == split_names(s@.subrange(start as int, end as int), 0),
{
    let ghost region = s@.subrange(start as int, end as int);
    let mut r: Vec<Vec<u8>> = Vec::new();
    proof {
        assert(r.deep_view() + split_names(region, 0) =~~= split_names(region, 0));
    }
    let mut pos = start;
    loop
        invariant
            start <= pos <= end <= s@.len(),
            region == s@.subrange(start as int, end as int),
            split_names(region, 0) == r.deep_view() + split_names(region, pos - start),
        decreases end - pos,
    {
        match find_comma(s, pos, end) {
            Option::Some(ci) => {
                let token = trim_range(s, pos, ci);
                proof {
                    let p = pos - start;
                    let c = ci - start;
                    assert(seq![44u8][0] == 44);
                    assert(region[c] == s@[ci as int]);
                    assert(matches_at(region, seq![44u8], c));
                    assert forall|j: int| p <= j < c implies !matches_at(
                        region,
                        seq![44u8],
                        j,
                    ) by {
                        assert(region[j] == s@[start + j]);
                        assert(s@[start + j] != 44);
                    }
                    crate::scan::lemma_first_match_find_from(region, seq![44u8], p, c);
                    assert(split_names(region, p) == seq![trim(region.subrange(p, c))]
                        + split_names(region, c + 1));
                    assert(region.subrange(p, c) =~= s@.subrange(pos as int, ci as int));
                }
                let ghost old_deep = r.deep_view();
                r.push(token);
                proof {
                    assert(r.deep_view() =~~= old_deep + seq![token@]);
                    assert(split_names(region, 0) =~~= r.deep_view() + split_names(
                        region,
                        ci + 1 - start,
                    ));
                }
                pos = ci + 1;
            },
            Option::None => {
                let token = trim_range(s, pos, end);
                proof {
                    let p = pos - start;
                    assert(seq![44u8][0] == 44);
                    assert forall|j: int| p <= j implies !matches_at(region, seq![44u8], j) by {
                        if j + 1 <= region.len() {
                            assert(region[j] == s@[start + j]);
                            assert(s@[start + j] != 44);
                        }
                    }
                    crate::scan::lemma_no_match_find_from(region, seq![44u8], p);
                    assert(split_names(region, p) == seq![
                        trim(region.subrange(p, region.len() as int)),
                    ]);
                    assert(region.subrange(p, region.len() as int) =~= s@.subrange(
                        pos as int,
                        end as int,
                    ));
                }
                let ghost old_deep = r.deep_view();
                r.push(token);
                proof {
                    assert(r.deep_view() =~~= old_deep + seq![token@]);
                    assert(r.deep_view() =~~= split_names(region, 0));
                }
                return r;
            },
        }
    }
}

/// What discovery returns for a captured output: `InvalidEncoding` for
/// bytes that are not UTF-8 text, else what the banner text yields.
pub open spec fn discovered_names(output: Seq<u8>) -> Result<Seq<Seq<u8>>, DiscoveryError> {
    if !utf8_valid(output) {
        Err(DiscoveryError::InvalidEncoding)
    } else {
        names_of_banner(output)
    }
}

/// Extracts the utility names from the captured output `banner`, as
/// `discovered_names` describes; the chosen boundaries follow the output
/// format of the multi-call binary.
pub fn list_supported_names(banner: &[u8]) -> (r: Result<Vec<Vec<u8>>, DiscoveryError>)
    ensures
        match r {
            Ok(names) => discovered_names(banner@) == Ok::<Seq<Seq<u8>>, DiscoveryError>(
                names.deep_view(),
            ),
            Err(e) => discovered_names(banner@) == Err::<Seq<Seq<u8>>, DiscoveryError>(e),
        },
{
    if !check_utf8(banner) {
        return Err(DiscoveryError::InvalidEncoding);
    }
    proof {
        reveal_strlit("[,");
        reveal_strlit("yes");
    }
    // Pins the banner length to a machine word, which bounds the index
    // arithmetic below.
    let banner_len: usize = banner.len();
    let marker_v = marker_bytes();
    let m = match find(banner, marker_v.as_slice(), 0) {
        Option::Some(m) => m,
        Option::None => {
            return Err(DiscoveryError::MarkerNotFound);
        },
    };
    let start_v = list_start_bytes();
    let d = match find(banner, start_v.as_slice(), m) {
        Option::Some(d) => d,
        Option::None => {
            return Err(DiscoveryError::MalformedList);
        },
    };
    proof {
        crate::scan::lemma_find_from_some(banner@, list_start(), m as int, d as int);
    }
    let term_v = terminal_bytes();
    let t = match find(banner, term_v.as_slice(), d + 2) {
        Option::Some(t) => t,
        Option::None => {
            return Err(DiscoveryError::MalformedList);
        },
    };
    proof {
        crate::scan::lemma_find_from_some(banner@, terminal(), d + 2, t as int);
    }
    let names = collect_names(banner, d + 2, t + 3);
    Ok(names)
}

/// Position of the first comma in `s[from..end]`, as the model `find_from`
/// sees it inside the subrange starting at some base position.
fn find_comma(s: &[u8], from: usize, end: usize) -> (r: Option<usize>)
    requires
        from <= end <= s@.len(),
    ensures
        match r {
            Some(i) => from <= i < end && s@[i as int] == 44 && forall|j: int|
                from <= j < i ==> s@[j] != 44,
            None => forall|j: int| from <= j < end ==> s@[j] != 44,
        },
{
    let mut i = from;
    while i < end
        invariant
            from <= i <= end <= s@.len(),
            forall|j: int| from <= j < i ==> s@[j] != 44,
        decreases end - i,
    {
        if s[i] == 44 {
            return Some(i);
        }
        i += 1;
    }
    None
}

/// Trimmed copy of `s[from..to]`.
fn trim_range(s: &[u8], from: usize, to: usize) -> (r: Vec<u8>)
    requires
        from <= to <= s@.len(),
    ensures
        r@ == trim(s@.subrange(from as int, to as int)),
{
    let mut piece: Vec<u8> = Vec::new();
    let mut i = from;
    while i < to
        invariant
            from <= i <= to <= s@.len(),
            piece@ == s@.subrange(from as int, i as int),
        decreases to - i,
    {
        piece.push(s[i]);
        proof {
            assert(s@.subrange(from as int, i + 1) =~= s@.subrange(from as int, i as int).push(
                s@[i as int],
            ));
        }
        i += 1;
    }
    trim_bytes(piece.as_slice())
}

} // verus!
