//! Symbolic-expression documents: the value tree, its mathematical model,
//! and a parser verified against a spec-level grammar.
//!
//! A document is a sequence of values; a value is a number, a symbol, a
//! string, or a parenthesized list of values. Numbers are fixed-point
//! integers in thousandths (a document's `2.5` is the value `2500`).

use vstd::prelude::*;

verus! {

broadcast use vstd::std_specs::vec::axiom_vec_index_decreases, vstd::seq::axiom_seq_index_decreases;

/// A parsed symbolic-expression value.
///
/// Numbers carry thousandths of a unit, so they are exact on up to three
/// fraction digits; further fraction digits are truncated toward zero.
pub enum SValue {
    Num(i64),
    Sym(Vec<u8>),
    Str(Vec<u8>),
    List(Vec<SValue>),
}

/// The mathematical model of an `SValue`: unbounded integers and sequences.
pub enum SVal {
    Num(int),
    Sym(Seq<u8>),
    Str(Seq<u8>),
    List(Seq<SVal>),
}

/// The models of a sequence of values, element by element.
pub open spec fn seq_view(items: Seq<SValue>) -> Seq<SVal>
    decreases items,
{
    Seq::new(
        items.len(),
        |k: int|
            if 0 <= k < items.len() {
                items[k].view()
            } else {
                SVal::Num(0)
            },
    )
}

impl SValue {
    /// The model of this value: numbers widen to `int`, byte vectors and
    /// child lists become sequences.
    pub open spec fn view(self) -> SVal
        decreases self,
    {
        match self {
            SValue::Num(n) => SVal::Num(n as int),
            SValue::Sym(v) => SVal::Sym(v@),
            SValue::Str(v) => SVal::Str(v@),
            SValue::List(items) => SVal::List(seq_view(items@)),
        }
    }
}

// ---------------------------------------------------------------------------
// Byte classes
// ---------------------------------------------------------------------------

/// Whitespace: space, tab, line feed, carriage return.
pub open spec fn is_ws(c: u8) -> bool {
    c == 32 || c == 9 || c == 10 || c == 13
}

/// An ASCII decimal digit.
pub open spec fn is_digit(c: u8) -> bool {
    48 <= c && c <= 57
}

/// A byte that may stand in an atom: anything but whitespace, parentheses
/// and the double quote.
pub open spec fn is_atom_byte(c: u8) -> bool {
    !is_ws(c) && c != 40 && c != 41 && c != 34
}

// ---------------------------------------------------------------------------
// Position scans
// ---------------------------------------------------------------------------

/// The first position at or after `i` holding a non-whitespace byte
/// (or the end of input).
pub open spec fn ws_end(s: Seq<u8>, i: int) -> int
    recommends
        0 <= i <= s.len(),
    decreases s.len() - i,
    when 0 <= i <= s.len()
{
    if i < s.len() && is_ws(s[i]) {
        ws_end(s, i + 1)
    } else {
        i
    }
}

/// The end of the maximal run of atom bytes starting at `i`.
pub open spec fn atom_end(s: Seq<u8>, i: int) -> int
    recommends
        0 <= i <= s.len(),
    decreases s.len() - i,
    when 0 <= i <= s.len()
{
    if i < s.len() && is_atom_byte(s[i]) {
        atom_end(s, i + 1)
    } else {
        i
    }
}

/// The position of the first `"` at or after `i` (or the end of input).
pub open spec fn str_end(s: Seq<u8>, i: int) -> int
    recommends
        0 <= i <= s.len(),
    decreases s.len() - i,
    when 0 <= i <= s.len()
{
    if i < s.len() && s[i] != 34 {
        str_end(s, i + 1)
    } else {
        i
    }
}

/// The end of the maximal run of digits starting at `i`.
pub open spec fn digits_end(s: Seq<u8>, i: int) -> int
    recommends
        0 <= i <= s.len(),
    decreases s.len() - i,
    when 0 <= i <= s.len()
{
    if i < s.len() && is_digit(s[i]) {
        digits_end(s, i + 1)
    } else {
        i
    }
}

pub proof fn lemma_atom_end_bounds(s: Seq<u8>, i: int)
    requires
        0 <= i <= s.len(),
    ensures
        i <= atom_end(s, i) <= s.len(),
    decreases s.len() - i,
{
    if i < s.len() && is_atom_byte(s[i]) {
        lemma_atom_end_bounds(s, i + 1);
    }
}

pub proof fn lemma_digits_end_bounds(s: Seq<u8>, i: int)
    requires
        0 <= i <= s.len(),
    ensures
        i <= digits_end(s, i) <= s.len(),
        forall|k: int| i <= k < digits_end(s, i) ==> is_digit(#[trigger] s[k]),
    decreases s.len() - i,
{
    if i < s.len() && is_digit(s[i]) {
        lemma_digits_end_bounds(s, i + 1);
    }
}

// ---------------------------------------------------------------------------
// Number atoms
// ---------------------------------------------------------------------------

/// The value of a sequence of digit bytes read as a decimal numeral.
pub open spec fn digits_val(t: Seq<u8>) -> int
    decreases t.len(),
{
    if t.len() == 0 {
        0
    } else {
        digits_val(t.drop_last()) * 10 + (t.last() - 48)
    }
}

pub open spec fn pow10(n: nat) -> int
    decreases n,
{
    if n == 0 {
        1
    } else {
        10 * pow10((n - 1) as nat)
    }
}

pub proof fn lemma_digits_val_bound(t: Seq<u8>)
    requires
        forall|k: int| 0 <= k < t.len() ==> is_digit(#[trigger] t[k]),
    ensures
        0 <= digits_val(t) < pow10(t.len()),
    decreases t.len(),
{
    if t.len() > 0 {
        lemma_digits_val_bound(t.drop_last());
        assert(pow10(t.len()) == 10 * pow10((t.len() - 1) as nat));
    }
}

/// Thousandths contributed by the fraction digits `f` (the digits after the
/// decimal point): the first three digits, padded with zeros on the right;
/// further digits are truncated.
pub open spec fn frac_milli(f: Seq<u8>) -> int {
    if f.len() >= 3 {
        digits_val(f.subrange(0, 3))
    } else if f.len() == 2 {
        digits_val(f) * 10
    } else {
        digits_val(f) * 100
    }
}

/// Where the magnitude of a numeric atom starts: after a single leading
/// minus sign, if present.
pub open spec fn num_start(t: Seq<u8>) -> int {
    if t.len() > 0 && t[0] == 45 {
        1
    } else {
        0
    }
}

/// Whether the atom `t` is a numeric atom: an optional minus sign, one to
/// twelve integer digits, and optionally a point followed by one or more
/// fraction digits, with nothing further.
pub open spec fn is_num_atom(t: Seq<u8>) -> bool {
    let b = num_start(t);
    let d = digits_end(t, b);
    &&& b <= t.len()
    &&& 1 <= d - b <= 12
    &&& (d == t.len() || (t[d] == 46 && d + 1 < t.len() && digits_end(t, d + 1) == t.len()))
}

/// The value of a numeric atom in thousandths, truncated toward zero.
pub open spec fn atom_milli(t: Seq<u8>) -> int {
    let b = num_start(t);
    let d = digits_end(t, b);
    let mag = if d == t.len() {
        digits_val(t.subrange(b, d)) * 1000
    } else {
        digits_val(t.subrange(b, d)) * 1000 + frac_milli(t.subrange(d + 1, t.len() as int))
    };
    if b == 1 {
        -mag
    } else {
        mag
    }
}

/// An atom is a number when it has numeric shape, otherwise a symbol.
pub open spec fn classify_atom(t: Seq<u8>) -> SVal {
    if is_num_atom(t) {
        SVal::Num(atom_milli(t))
    } else {
        SVal::Sym(t)
    }
}

// ---------------------------------------------------------------------------
// The grammar
// ---------------------------------------------------------------------------

/// Parse one value at position `i`: leading whitespace, then a list, a
/// string, or an atom. `fuel` bounds the recursion; `doc_fuel` is always
/// enough. Yields the value and the position after it, or `None` where no
/// value can be read.
pub open spec fn sp_value(s: Seq<u8>, i: int, fuel: nat) -> Option<(SVal, int)>
    recommends
        0 <= i <= s.len(),
    decreases fuel,
{
    if fuel == 0 {
        None
    } else {
        let j = ws_end(s, i);
        if j >= s.len() {
            None
        } else if s[j] == 40 {
            match sp_list(s, j + 1, (fuel - 1) as nat) {
                Some((vs, k)) => Some((SVal::List(vs), k)),
                None => None,
            }
        } else if s[j] == 41 {
            None
        } else if s[j] == 34 {
            let e = str_end(s, j + 1);
            if e < s.len() {
                Some((SVal::Str(s.subrange(j + 1, e)), e + 1))
            } else {
                None
            }
        } else {
            let e = atom_end(s, j);
            Some((classify_atom(s.subrange(j, e)), e))
        }
    }
}

/// Parse the elements of a list from position `i` up to and including the
/// closing parenthesis. Yields the elements and the position after `)`.
pub open spec fn sp_list(s: Seq<u8>, i: int, fuel: nat) -> Option<(Seq<SVal>, int)>
    recommends
        0 <= i <= s.len(),
    decreases fuel,
{
    if fuel == 0 {
        None
    } else {
        let j = ws_end(s, i);
        if j >= s.len() {
            None
        } else if s[j] == 41 {
            Some((Seq::empty(), j + 1))
        } else {
            match sp_value(s, j, (fuel - 1) as nat) {
                None => None,
                Some((v, k)) => match sp_list(s, k, (fuel - 1) as nat) {
                    None => None,
                    Some((vs, m)) => Some((seq![v] + vs, m)),
                },
            }
        }
    }
}

/// Parse the top-level sequence of values from position `i` to the end of
/// input.
pub open spec fn sp_items(s: Seq<u8>, i: int, fuel: nat) -> Option<Seq<SVal>>
    recommends
        0 <= i <= s.len(),
    decreases fuel,
{
    if fuel == 0 {
        None
    } else {
        let j = ws_end(s, i);
        if j >= s.len() {
            Some(Seq::empty())
        } else {
            match sp_value(s, j, (fuel - 1) as nat) {
                None => None,
                Some((v, k)) => match sp_items(s, k, (fuel - 1) as nat) {
                    None => None,
                    Some(vs) => Some(seq![v] + vs),
                },
            }
        }
    }
}

/// Fuel that always suffices for `sp_items(s, 0, _)`: along any chain of
/// recursive calls, at least one input byte is consumed for every two calls.
pub open spec fn doc_fuel(s: Seq<u8>) -> nat {
    (2 * s.len() + 2) as nat
}

/// The model of parsing a whole document: the top-level values as one list,
/// or `None` where the text is not a well-formed symbolic expression.
pub open spec fn spec_parse_document(s: Seq<u8>) -> Option<SVal> {
    match sp_items(s, 0, doc_fuel(s)) {
        None => None,
        Some(vs) => Some(SVal::List(vs)),
    }
}

// ---------------------------------------------------------------------------
// The executable parser
// ---------------------------------------------------------------------------

/// How an executable parse result matches a spec parse result.
pub open spec fn value_res_matches(r: Option<(SValue, usize)>, sp: Option<(SVal, int)>) -> bool {
    match r {
        Some((v, j)) => sp matches Some((sv, sj)) && v.view() == sv && j as int == sj,
        None => sp is None,
    }
}

/// How an executable list result matches a spec list result.
pub open spec fn list_res_matches(r: Option<(Vec<SValue>, usize)>, sp: Option<(Seq<SVal>, int)>) -> bool {
    match r {
        Some((vs, j)) => sp matches Some((svs, sj)) && seq_view(vs@) == svs && j as int == sj,
        None => sp is None,
    }
}

/// How an executable item-sequence result matches a spec one.
pub open spec fn items_res_matches(r: Option<Vec<SValue>>, sp: Option<Seq<SVal>>) -> bool {
    match r {
        Some(vs) => sp matches Some(svs) && seq_view(vs@) == svs,
        None => sp is None,
    }
}

fn skip_ws(s: &Vec<u8>, i: usize) -> (r: usize)
    requires
        i <= s@.len(),
    ensures
        r as int == ws_end(s@, i as int),
        i <= r <= s@.len(),
        r < s@.len() ==> !is_ws(s@[r as int]),
    decreases s@.len() - i,
{
    if i < s.len() {
        let c = s[i];
        if c == 32 || c == 9 || c == 10 || c == 13 {
            return skip_ws(s, i + 1);
        }
    }
    i
}

fn scan_atom(s: &Vec<u8>, i: usize) -> (r: usize)
    requires
        i <= s@.len(),
    ensures
        r as int == atom_end(s@, i as int),
        i <= r <= s@.len(),
    decreases s@.len() - i,
{
    if i < s.len() {
        let c = s[i];
        if !(c == 32 || c == 9 || c == 10 || c == 13 || c == 40 || c == 41 || c == 34) {
            return scan_atom(s, i + 1);
        }
    }
    i
}

fn scan_str(s: &Vec<u8>, i: usize) -> (r: usize)
    requires
        i <= s@.len(),
    ensures
        r as int == str_end(s@, i as int),
        i <= r <= s@.len(),
    decreases s@.len() - i,
{
    if i < s.len() {
        let c = s[i];
        if c != 34 {
            return scan_str(s, i + 1);
        }
    }
    i
}

fn scan_digits(s: &Vec<u8>, i: usize) -> (r: usize)
    requires
        i <= s@.len(),
    ensures
        r as int == digits_end(s@, i as int),
        i <= r <= s@.len(),
    decreases s@.len() - i,
{
    if i < s.len() {
        let c = s[i];
        if 48 <= c && c <= 57 {
            return scan_digits(s, i + 1);
        }
    }
    i
}

/// Copy the bytes of `s` in `[a, b)` into a fresh vector.
pub(crate) fn copy_range(s: &Vec<u8>, a: usize, b: usize) -> (r: Vec<u8>)
    requires
        a <= b <= s@.len(),
    ensures
        r@ == s@.subrange(a as int, b as int),
{
    let mut t: Vec<u8> = Vec::new();
    let mut k: usize = a;
    while k < b
        invariant
            a <= k <= b <= s@.len(),
            t@ == s@.subrange(a as int, k as int),
        decreases b - k,
    {
        t.push(s[k]);
        proof {
            assert(s@.subrange(a as int, k + 1 as int) =~= s@.subrange(a as int, k as int).push(
                s@[k as int],
            ));
        }
        k += 1;
    }
    t
}

/// The value of the digit bytes of `t` in `[a, b)` as a decimal numeral,
/// for runs of at most twelve digits.
fn digits_value(t: &Vec<u8>, a: usize, b: usize) -> (r: i64)
    requires
        a <= b <= t@.len(),
        b - a <= 12,
        forall|k: int| a <= k < b ==> is_digit(#[trigger] t@[k]),
    ensures
        r as int == digits_val(t@.subrange(a as int, b as int)),
        0 <= r < 1000000000000,
{
    proof {
        lemma_digits_val_bound(t@.subrange(a as int, a as int));
    }
    let mut acc: i64 = 0;
    let mut k: usize = a;
    while k < b
        invariant
            a <= k <= b <= t@.len(),
            b - a <= 12,
            forall|q: int| a <= q < b ==> is_digit(#[trigger] t@[q]),
            acc as int == digits_val(t@.subrange(a as int, k as int)),
            0 <= acc,
            (acc as int) < pow10((k - a) as nat),
        decreases b - k,
    {
        let d = t[k];
        proof {
            let prev = t@.subrange(a as int, k as int);
            let cur = t@.subrange(a as int, k + 1 as int);
            assert(cur.drop_last() =~= prev);
            assert(cur.last() == t@[k as int]);
            lemma_digits_val_bound(cur);
            assert(pow10(((k + 1) - a) as nat) == 10 * pow10((k - a) as nat));
            assert(pow10(12) == 1000000000000) by {
                reveal_with_fuel(pow10, 13);
            }
            lemma_pow10_mono((((k + 1) - a)) as nat, 12);
        }
        acc = acc * 10 + ((d - 48) as i64);
        k += 1;
    }
    proof {
        lemma_pow10_mono(((b - a)) as nat, 12);
        assert(pow10(12) == 1000000000000) by {
            reveal_with_fuel(pow10, 13);
        }
    }
    acc
}

pub proof fn lemma_pow10_mono(a: nat, b: nat)
    requires
        a <= b,
    ensures
        pow10(a) <= pow10(b),
        pow10(a) >= 1,
    decreases b,
{
    if a == b {
        lemma_pow10_pos(a);
    } else {
        lemma_pow10_mono(a, (b - 1) as nat);
    }
}

pub proof fn lemma_pow10_pos(a: nat)
    ensures
        pow10(a) >= 1,
    decreases a,
{
    if a > 0 {
        lemma_pow10_pos((a - 1) as nat);
    }
}

/// Read the atom `t` as a numeric atom, in thousandths; `None` where `t`
/// does not have numeric shape.
pub(crate) fn parse_num_atom(t: &Vec<u8>) -> (r: Option<i64>)
    ensures
        match r {
            Some(n) => is_num_atom(t@) && n as int == atom_milli(t@),
            None => !is_num_atom(t@),
        },
{
    if t.len() == 0 {
        return None;
    }
    let neg = t[0] == 45;
    let b: usize = if neg { 1 } else { 0 };
    let d = scan_digits(t, b);
    if d - b < 1 || d - b > 12 {
        return None;
    }
    proof {
        lemma_digits_end_bounds(t@, b as int);
    }
    let intval = digits_value(t, b, d);
    let mag: i64;
    if d == t.len() {
        mag = intval * 1000;
    } else {
        let c = t[d];
        if c != 46 {
            return None;
        }
        if d + 1 >= t.len() {
            return None;
        }
        let f = scan_digits(t, d + 1);
        if f != t.len() {
            return None;
        }
        proof {
            lemma_digits_end_bounds(t@, d + 1 as int);
        }
        let flen = t.len() - (d + 1);
        let frac: i64;
        if flen >= 3 {
            frac = ((t[d + 1] - 48) as i64) * 100 + ((t[d + 2] - 48) as i64) * 10 + ((t[d + 3]
                - 48) as i64);
            proof {
                let fs = t@.subrange(d + 1 as int, t@.len() as int);
                let f3 = fs.subrange(0, 3);
                assert(f3 =~= seq![t@[d + 1 as int], t@[d + 2 as int], t@[d + 3 as int]]);
                assert(digits_val(f3) == (f3[0] - 48) * 100 + (f3[1] - 48) * 10 + (f3[2] - 48))
                    by {
                    reveal_with_fuel(digits_val, 4);
                    assert(f3.drop_last() =~= seq![f3[0], f3[1]]);
                    assert(f3.drop_last().drop_last() =~= seq![f3[0]]);
                    assert(f3.drop_last().drop_last().drop_last() =~= Seq::<u8>::empty());
                }
            }
        } else if flen == 2 {
            frac = ((t[d + 1] - 48) as i64) * 100 + ((t[d + 2] - 48) as i64) * 10;
            proof {
                let fs = t@.subrange(d + 1 as int, t@.len() as int);
                assert(digits_val(fs) == (fs[0] - 48) * 10 + (fs[1] - 48)) by {
                    reveal_with_fuel(digits_val, 3);
                    assert(fs.drop_last() =~= seq![fs[0]]);
                    assert(fs.drop_last().drop_last() =~= Seq::<u8>::empty());
                }
            }
        } else {
            frac = ((t[d + 1] - 48) as i64) * 100;
            proof {
                let fs = t@.subrange(d + 1 as int, t@.len() as int);
                assert(digits_val(fs) == fs[0] - 48) by {
                    reveal_with_fuel(digits_val, 2);
                    assert(fs.drop_last() =~= Seq::<u8>::empty());
                }
            }
        }
        mag = intval * 1000 + frac;
    }
    if neg {
        Some(-mag)
    } else {
        Some(mag)
    }
}

fn parse_value(s: &Vec<u8>, i: usize, fuel: usize) -> (r: Option<(SValue, usize)>)
    requires
        i <= s@.len(),
        fuel as int >= 2 * (s@.len() - i) + 1,
    ensures
        value_res_matches(r, sp_value(s@, i as int, fuel as nat)),
        r matches Some((v, j)) ==> i < j <= s@.len(),
    decreases fuel,
{
    let j = skip_ws(s, i);
    if j >= s.len() {
        return None;
    }
    let c = s[j];
    if c == 40 {
        match parse_list(s, j + 1, fuel - 1) {
            Some((vs, k)) => Some((SValue::List(vs), k)),
            None => None,
        }
    } else if c == 41 {
        None
    } else if c == 34 {
        let e = scan_str(s, j + 1);
        if e < s.len() {
            let bytes = copy_range(s, j + 1, e);
            Some((SValue::Str(bytes), e + 1))
        } else {
            None
        }
    } else {
        let e = scan_atom(s, j);
        proof {
            assert(is_atom_byte(s@[j as int]));
            lemma_atom_end_bounds(s@, j + 1 as int);
            assert(atom_end(s@, j as int) == atom_end(s@, j + 1 as int));
        }
        let t = copy_range(s, j, e);
        match parse_num_atom(&t) {
            Some(n) => Some((SValue::Num(n), e)),
            None => Some((SValue::Sym(t), e)),
        }
    }
}

fn parse_list(s: &Vec<u8>, i: usize, fuel: usize) -> (r: Option<(Vec<SValue>, usize)>)
    requires
        i <= s@.len(),
        fuel as int >= 2 * (s@.len() - i) + 2,
    ensures
        list_res_matches(r, sp_list(s@, i as int, fuel as nat)),
        r matches Some((vs, j)) ==> i < j <= s@.len(),
    decreases fuel,
{
    let j = skip_ws(s, i);
    if j >= s.len() {
        return None;
    }
    let c = s[j];
    if c == 41 {
        let vs: Vec<SValue> = Vec::new();
        proof {
            assert(seq_view(vs@) =~= Seq::<SVal>::empty());
        }
        return Some((vs, j + 1));
    }
    match parse_value(s, j, fuel - 1) {
        None => None,
        Some((v, k)) => {
            match parse_list(s, k, fuel - 1) {
                None => None,
                Some((rest, m)) => {
                    let ghost old_rest = rest@;
                    let mut vs = rest;
                    let ghost v0 = v;
                    vs.insert(0, v);
                    proof {
                        assert(vs@ =~= seq![v0] + old_rest);
                        assert(seq_view(vs@) =~= seq![v0.view()] + seq_view(old_rest));
                    }
                    Some((vs, m))
                },
            }
        },
    }
}

fn parse_items(s: &Vec<u8>, i: usize, fuel: usize) -> (r: Option<Vec<SValue>>)
    requires
        i <= s@.len(),
        fuel as int >= 2 * (s@.len() - i) + 2,
    ensures
        items_res_matches(r, sp_items(s@, i as int, fuel as nat)),
    decreases fuel,
{
    let j = skip_ws(s, i);
    if j >= s.len() {
        let vs: Vec<SValue> = Vec::new();
        proof {
            assert(seq_view(vs@) =~= Seq::<SVal>::empty());
        }
        return Some(vs);
    }
    match parse_value(s, j, fuel - 1) {
        None => None,
        Some((v, k)) => {
            match parse_items(s, k, fuel - 1) {
                None => None,
                Some(rest) => {
                    let ghost old_rest = rest@;
                    let mut vs = rest;
                    let ghost v0 = v;
                    vs.insert(0, v);
                    proof {
                        assert(vs@ =~= seq![v0] + old_rest);
                        assert(seq_view(vs@) =~= seq![v0.view()] + seq_view(old_rest));
                    }
                    Some(vs)
                },
            }
        },
    }
}

/// The byte budget the parser accepts in one document.
pub open spec fn doc_len_limit() -> int {
    100000000
}

/// Parse a whole document: its top-level values as one list value, or
/// `None` where the text is not a well-formed symbolic expression.
pub fn parse_document(s: &Vec<u8>) -> (r: Option<SValue>)
    requires
        s@.len() <= doc_len_limit(),
    ensures
        match r {
            Some(v) => spec_parse_document(s@) matches Some(sv) && v.view() == sv,
            None => spec_parse_document(s@) is None,
        },
{
    let fuel: usize = 2 * s.len() + 2;
    match parse_items(s, 0, fuel) {
        None => None,
        Some(vs) => Some(SValue::List(vs)),
    }
}

} // verus!
