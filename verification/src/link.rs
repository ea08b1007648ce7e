//! Link decoding: a raw link value is `URL` or `URL#X,Y`, where the
//! fragment names a spawn override in the destination page's grid,
//! in tiles. A link without a destination is inert; a malformed fragment
//! is discarded while the destination is kept.

use vstd::prelude::*;
use crate::sexpr::is_num_atom;
use crate::sexpr::atom_milli;
use crate::sexpr::parse_num_atom;
use crate::sexpr::copy_range;

verus! {

/// The decoded form of a link value: the destination URL and the optional
/// override coordinate from the fragment, in thousandths of a tile.
pub struct LinkTarget {
    pub url: Vec<u8>,
    pub target: Option<(i64, i64)>,
}

/// The first position at or after `i` holding byte `c` (or the end).
pub open spec fn find_byte(s: Seq<u8>, i: int, c: u8) -> int
    recommends
        0 <= i <= s.len(),
    decreases s.len() - i,
    when 0 <= i <= s.len()
{
    if i < s.len() && s[i] != c {
        find_byte(s, i + 1, c)
    } else {
        i
    }
}

/// The model of decoding a raw link value. The destination is everything
/// before the first `#`; an empty destination makes the link inert
/// (`None`). The fragment is split at commas into `X` (before the first)
/// and `Y` (between the first and the second, or the rest); both must be
/// numeric atoms or the override is discarded.
pub open spec fn spec_decode(s: Seq<u8>) -> Option<(Seq<u8>, Option<(int, int)>)> {
    let h = find_byte(s, 0, 35);
    if h == 0 {
        None
    } else {
        let url = s.subrange(0, h);
        if h >= s.len() {
            Some((url, None))
        } else {
            let frag = s.subrange(h + 1, s.len() as int);
            let cm = find_byte(frag, 0, 44);
            if cm >= frag.len() {
                Some((url, None))
            } else {
                let xs = frag.subrange(0, cm);
                let rest = frag.subrange(cm + 1, frag.len() as int);
                let cm2 = find_byte(rest, 0, 44);
                let ys = rest.subrange(0, cm2);
                if is_num_atom(xs) && is_num_atom(ys) {
                    Some((url, Some((atom_milli(xs), atom_milli(ys)))))
                } else {
                    Some((url, None))
                }
            }
        }
    }
}

/// How an executable decode result matches the model.
pub open spec fn decode_matches(r: Option<LinkTarget>, sp: Option<(Seq<u8>, Option<(int, int)>)>) -> bool {
    match r {
        Some(lt) => sp matches Some((u, t)) && lt.url@ == u && match (lt.target, t) {
            (Some(a), Some(b)) => (a.0 as int, a.1 as int) == b,
            (None, None) => true,
            _ => false,
        },
        None => sp is None,
    }
}

fn scan_byte(s: &Vec<u8>, i: usize, c: u8) -> (r: usize)
    requires
        i <= s@.len(),
    ensures
        r as int == find_byte(s@, i as int, c),
        i <= r <= s@.len(),
    decreases s@.len() - i,
{
    if i < s.len() {
        if s[i] != c {
            return scan_byte(s, i + 1, c);
        }
    }
    i
}

/// Decode a raw link value; `None` where the link is inert (no
/// destination).
pub fn decode(raw: &Vec<u8>) -> (r: Option<LinkTarget>)
    ensures
        decode_matches(r, spec_decode(raw@)),
{
    let h = scan_byte(raw, 0, 35);
    if h == 0 {
        return None;
    }
    let url = copy_range(raw, 0, h);
    if h >= raw.len() {
        return Some(LinkTarget { url, target: None });
    }
    let frag = copy_range(raw, h + 1, raw.len());
    let cm = scan_byte(&frag, 0, 44);
    if cm >= frag.len() {
        return Some(LinkTarget { url, target: None });
    }
    let xs = copy_range(&frag, 0, cm);
    let rest = copy_range(&frag, cm + 1, frag.len());
    let cm2 = scan_byte(&rest, 0, 44);
    let ys = copy_range(&rest, 0, cm2);
    let x = parse_num_atom(&xs);
    let y = parse_num_atom(&ys);
    match (x, y) {
        (Some(xv), Some(yv)) => Some(LinkTarget { url, target: Some((xv, yv)) }),
        _ => Some(LinkTarget { url, target: None }),
    }
}

} // verus!
