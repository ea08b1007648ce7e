//! Pages: the plist interpretation of a parsed document.
//!
//! A page document is a flat plist `key value key value ...` at the top
//! level. Recognized keys are `:spawn`, `:width`, `:height`, `:bg-tile`,
//! `:map` and `:links`; a missing or malformed key falls back to its
//! documented default. Map and link entries are `((x y) value)` lists whose
//! coordinates are truncated toward zero to grid cells; malformed entries
//! are skipped, never fatal.

use vstd::prelude::*;
use crate::sexpr::SVal;
use crate::sexpr::SValue;
use crate::sexpr::seq_view;
use crate::sexpr::spec_parse_document;
use crate::sexpr::parse_document;
use crate::sexpr::doc_len_limit;

verus! {

// ---------------------------------------------------------------------------
// Shape helpers on the model
// ---------------------------------------------------------------------------

pub open spec fn as_num(v: SVal) -> Option<int> {
    match v {
        SVal::Num(n) => Some(n),
        _ => None,
    }
}

pub open spec fn as_sym(v: SVal) -> Option<Seq<u8>> {
    match v {
        SVal::Sym(s) => Some(s),
        _ => None,
    }
}

pub open spec fn as_text(v: SVal) -> Option<Seq<u8>> {
    match v {
        SVal::Str(s) => Some(s),
        _ => None,
    }
}

pub open spec fn as_items(v: SVal) -> Option<Seq<SVal>> {
    match v {
        SVal::List(l) => Some(l),
        _ => None,
    }
}

// ---------------------------------------------------------------------------
// Plist lookup
// ---------------------------------------------------------------------------

/// The value after the first occurrence of the symbol `key` among `items`.
pub open spec fn plist_get(items: Seq<SVal>, key: Seq<u8>) -> Option<SVal>
    decreases items.len(),
{
    if items.len() == 0 {
        None
    } else if items[0] == SVal::Sym(key) {
        if items.len() >= 2 {
            Some(items[1])
        } else {
            None
        }
    } else {
        plist_get(items.drop_first(), key)
    }
}

/// Look a key up in a document, which must be a top-level list.
pub open spec fn doc_get(doc: SVal, key: Seq<u8>) -> Option<SVal> {
    match doc {
        SVal::List(items) => plist_get(items, key),
        _ => None,
    }
}

// ---------------------------------------------------------------------------
// Field interpretation
// ---------------------------------------------------------------------------

pub open spec fn key_spawn() -> Seq<u8> {
    seq![58u8, 115u8, 112u8, 97u8, 119u8, 110u8]
}

pub open spec fn key_width() -> Seq<u8> {
    seq![58u8, 119u8, 105u8, 100u8, 116u8, 104u8]
}

pub open spec fn key_height() -> Seq<u8> {
    seq![58u8, 104u8, 101u8, 105u8, 103u8, 104u8, 116u8]
}

pub open spec fn key_bg_tile() -> Seq<u8> {
    seq![58u8, 98u8, 103u8, 45u8, 116u8, 105u8, 108u8, 101u8]
}

pub open spec fn key_map() -> Seq<u8> {
    seq![58u8, 109u8, 97u8, 112u8]
}

pub open spec fn key_links() -> Seq<u8> {
    seq![58u8, 108u8, 105u8, 110u8, 107u8, 115u8]
}

pub open spec fn default_bg_tile() -> Seq<u8> {
    seq![103u8, 114u8, 97u8, 115u8, 115u8]
}

/// A two-number list, read as a coordinate pair in thousandths.
pub open spec fn coords_of(v: SVal) -> Option<(int, int)> {
    match as_items(v) {
        Some(l) => if l.len() >= 2 {
            match (as_num(l[0]), as_num(l[1])) {
                (Some(x), Some(y)) => Some((x, y)),
                _ => None,
            }
        } else {
            None
        },
        None => None,
    }
}

/// Thousandths truncated toward zero to a whole number of units.
pub open spec fn grid_trunc(m: int) -> int {
    if m >= 0 {
        m / 1000
    } else {
        -((-m) / 1000)
    }
}

/// The spawn point of a document, in thousandths of a tile; `(0, 0)` where
/// absent or malformed.
pub open spec fn spawn_of(doc: SVal) -> (int, int) {
    match doc_get(doc, key_spawn()) {
        Some(v) => match coords_of(v) {
            Some(c) => c,
            None => (0, 0),
        },
        None => (0, 0),
    }
}

/// A grid dimension: a whole, nonnegative number that fits `u32`; `0`
/// where absent or malformed.
pub open spec fn dim_of(doc: SVal, key: Seq<u8>) -> int {
    match doc_get(doc, key) {
        Some(v) => match as_num(v) {
            Some(m) => if m >= 0 && m % 1000 == 0 && m / 1000 <= u32::MAX {
                m / 1000
            } else {
                0
            },
            None => 0,
        },
        None => 0,
    }
}

/// The background tile name; `grass` where absent or malformed.
pub open spec fn bg_of(doc: SVal) -> Seq<u8> {
    match doc_get(doc, key_bg_tile()) {
        Some(v) => match as_sym(v) {
            Some(s) => s,
            None => default_bg_tile(),
        },
        None => default_bg_tile(),
    }
}

/// An `((x y) value)` entry: the grid cell (coordinates truncated toward
/// zero) and the value.
pub open spec fn entry_cell(e: SVal) -> Option<((int, int), SVal)> {
    match as_items(e) {
        Some(l) => if l.len() >= 2 {
            match coords_of(l[0]) {
                Some((x, y)) => Some(((grid_trunc(x), grid_trunc(y)), l[1])),
                None => None,
            }
        } else {
            None
        },
        None => None,
    }
}

/// Fold `:map` entries into a cell-to-tile-name mapping; a later entry for
/// the same cell replaces an earlier one, and a malformed entry or a
/// non-symbol value is skipped.
pub open spec fn map_entries(entries: Seq<SVal>) -> Map<(int, int), Seq<u8>>
    decreases entries.len(),
{
    if entries.len() == 0 {
        Map::empty()
    } else {
        let m = map_entries(entries.drop_last());
        match entry_cell(entries.last()) {
            Some((c, v)) => match as_sym(v) {
                Some(name) => m.insert(c, name),
                None => m,
            },
            None => m,
        }
    }
}

/// Fold `:links` entries into a cell-to-link mapping; as `map_entries`,
/// except that values must be strings.
pub open spec fn links_entries(entries: Seq<SVal>) -> Map<(int, int), Seq<u8>>
    decreases entries.len(),
{
    if entries.len() == 0 {
        Map::empty()
    } else {
        let m = links_entries(entries.drop_last());
        match entry_cell(entries.last()) {
            Some((c, v)) => match as_text(v) {
                Some(raw) => m.insert(c, raw),
                None => m,
            },
            None => m,
        }
    }
}

/// The tile map of a document; empty where `:map` is absent or not a list.
pub open spec fn map_of(doc: SVal) -> Map<(int, int), Seq<u8>> {
    match doc_get(doc, key_map()) {
        Some(v) => match as_items(v) {
            Some(l) => map_entries(l),
            None => Map::empty(),
        },
        None => Map::empty(),
    }
}

/// The link map of a document; empty where `:links` is absent or not a list.
pub open spec fn links_of(doc: SVal) -> Map<(int, int), Seq<u8>> {
    match doc_get(doc, key_links()) {
        Some(v) => match as_items(v) {
            Some(l) => links_entries(l),
            None => Map::empty(),
        },
        None => Map::empty(),
    }
}

// ---------------------------------------------------------------------------
// Association vectors
// ---------------------------------------------------------------------------

/// The mapping an association vector denotes: later entries win.
pub open spec fn assoc_map(s: Seq<((i64, i64), Vec<u8>)>) -> Map<(int, int), Seq<u8>>
    decreases s.len(),
{
    if s.len() == 0 {
        Map::empty()
    } else {
        assoc_map(s.drop_last()).insert(
            (s.last().0.0 as int, s.last().0.1 as int),
            s.last().1@,
        )
    }
}

/// No two entries share a cell.
pub open spec fn assoc_unique(s: Seq<((i64, i64), Vec<u8>)>) -> bool {
    forall|p: int, q: int|
        0 <= p < q < s.len() ==> (#[trigger] s[p]).0 != (#[trigger] s[q]).0
}

pub proof fn lemma_assoc_dom(s: Seq<((i64, i64), Vec<u8>)>, key: (int, int))
    ensures
        assoc_map(s).dom().contains(key) <==> exists|q: int|
            0 <= q < s.len() && ((#[trigger] s[q]).0.0 as int, s[q].0.1 as int) == key,
    decreases s.len(),
{
    if s.len() > 0 {
        lemma_assoc_dom(s.drop_last(), key);
        if (s.last().0.0 as int, s.last().0.1 as int) == key {
            assert(((s[s.len() - 1]).0.0 as int, s[s.len() - 1].0.1 as int) == key);
        } else {
            if assoc_map(s).dom().contains(key) {
                let q = choose|q: int|
                    0 <= q < s.drop_last().len() && ((#[trigger] s.drop_last()[q]).0.0 as int,
                    s.drop_last()[q].0.1 as int) == key;
                assert(((s[q]).0.0 as int, s[q].0.1 as int) == key);
            }
            if exists|q: int|
                0 <= q < s.len() && ((#[trigger] s[q]).0.0 as int, s[q].0.1 as int) == key {
                let q = choose|q: int|
                    0 <= q < s.len() && ((#[trigger] s[q]).0.0 as int, s[q].0.1 as int) == key;
                assert(q < s.len() - 1);
                assert(((s.drop_last()[q]).0.0 as int, s.drop_last()[q].0.1 as int) == key);
            }
        }
    }
}

pub proof fn lemma_assoc_update(
    s: Seq<((i64, i64), Vec<u8>)>,
    k: int,
    key: (i64, i64),
    val: Vec<u8>,
)
    requires
        0 <= k < s.len(),
        s[k].0 == key,
        assoc_unique(s),
    ensures
        assoc_map(s.update(k, (key, val))) == assoc_map(s).insert(
            (key.0 as int, key.1 as int),
            val@,
        ),
    decreases s.len(),
{
    let t = s.update(k, (key, val));
    if k == s.len() - 1 {
        assert(t.drop_last() =~= s.drop_last());
        assert(t.last() == (key, val));
        assert(assoc_map(t) =~= assoc_map(s).insert((key.0 as int, key.1 as int), val@));
    } else {
        assert(t.drop_last() =~= s.drop_last().update(k, (key, val)));
        lemma_assoc_update(s.drop_last(), k, key, val);
        assert(t.last() == s.last());
        assert(s[k].0 != s[s.len() - 1].0);
        assert(assoc_map(t) =~= assoc_map(s).insert((key.0 as int, key.1 as int), val@));
    }
}

/// Bind `key` to `val` in the association vector, replacing any entry for
/// the same cell.
fn assoc_set(m: &mut Vec<((i64, i64), Vec<u8>)>, key: (i64, i64), val: Vec<u8>)
    requires
        assoc_unique(old(m)@),
    ensures
        assoc_unique(final(m)@),
        assoc_map(final(m)@) == assoc_map(old(m)@).insert((key.0 as int, key.1 as int), val@),
{
    let mut k: usize = 0;
    while k < m.len()
        invariant
            0 <= k <= m@.len(),
            assoc_unique(m@),
            m@ == old(m)@,
            forall|q: int| 0 <= q < k ==> (#[trigger] m@[q]).0 != key,
        decreases m@.len() - k,
    {
        if m[k].0.0 == key.0 && m[k].0.1 == key.1 {
            proof {
                lemma_assoc_update(m@, k as int, key, val);
            }
            m.set(k, (key, val));
            proof {
                assert(assoc_unique(m@));
            }
            return ;
        }
        k += 1;
    }
    proof {
        lemma_assoc_dom(m@, (key.0 as int, key.1 as int));
    }
    m.push((key, val));
    proof {
        assert(m@.drop_last() =~= old(m)@);
        assert(assoc_unique(m@));
    }
}

// ---------------------------------------------------------------------------
// Executable helpers on values
// ---------------------------------------------------------------------------

/// Byte-vector equality.
pub fn bytes_eq(a: &Vec<u8>, b: &Vec<u8>) -> (r: bool)
    ensures
        r == (a@ == b@),
{
    if a.len() != b.len() {
        return false;
    }
    let mut k: usize = 0;
    while k < a.len()
        invariant
            0 <= k <= a@.len(),
            a@.len() == b@.len(),
            forall|q: int| 0 <= q < k ==> a@[q] == b@[q],
        decreases a@.len() - k,
    {
        if a[k] != b[k] {
            return false;
        }
        k += 1;
    }
    proof {
        assert(a@ =~= b@);
    }
    true
}

/// The value after the first occurrence of the symbol `key` among `items`.
fn plist_find<'a>(items: &'a Vec<SValue>, key: &Vec<u8>) -> (r: Option<&'a SValue>)
    ensures
        match r {
            Some(v) => plist_get(seq_view(items@), key@) == Some(v.view()),
            None => plist_get(seq_view(items@), key@) is None,
        },
{
    proof {
        assert(seq_view(items@).skip(0) =~= seq_view(items@));
    }
    let mut k: usize = 0;
    while k < items.len()
        invariant
            0 <= k <= items@.len(),
            plist_get(seq_view(items@), key@) == plist_get(
                seq_view(items@).skip(k as int),
                key@,
            ),
        decreases items@.len() - k,
    {
        let matched: bool = match &items[k] {
            SValue::Sym(s) => bytes_eq(s, key),
            _ => false,
        };
        proof {
            assert(seq_view(items@).skip(k as int)[0] == items@[k as int].view());
        }
        if matched {
            if k + 1 < items.len() {
                proof {
                    assert(seq_view(items@).skip(k as int)[1] == items@[k + 1 as int].view());
                }
                return Some(&items[k + 1]);
            } else {
                return None;
            }
        }
        proof {
            assert(seq_view(items@).skip(k as int).drop_first() =~= seq_view(items@).skip(
                k + 1 as int,
            ));
        }
        k += 1;
    }
    proof {
        assert(seq_view(items@).skip(k as int).len() == 0);
    }
    None
}

/// Thousandths truncated toward zero to whole units.
pub fn grid_of_milli(m: i64) -> (r: i64)
    ensures
        r as int == grid_trunc(m as int),
{
    if m >= 0 {
        m / 1000
    } else if m == i64::MIN {
        proof {
            assert(grid_trunc(i64::MIN as int) == -9223372036854775int);
        }
        -9223372036854775i64
    } else {
        -((-m) / 1000)
    }
}

/// A two-number list as a coordinate pair in thousandths.
fn coords_from(v: &SValue) -> (r: Option<(i64, i64)>)
    ensures
        match r {
            Some(c) => coords_of(v.view()) == Some((c.0 as int, c.1 as int)),
            None => coords_of(v.view()) is None,
        },
{
    match v {
        SValue::List(l) => {
            if l.len() >= 2 {
                proof {
                    assert(seq_view(l@)[0] == l@[0].view());
                    assert(seq_view(l@)[1] == l@[1].view());
                }
                let x: i64 = match &l[0] {
                    SValue::Num(n) => *n,
                    _ => {
                        return None;
                    },
                };
                let y: i64 = match &l[1] {
                    SValue::Num(n) => *n,
                    _ => {
                        return None;
                    },
                };
                Some((x, y))
            } else {
                None
            }
        },
        _ => None,
    }
}

/// An `((x y) value)` entry: grid cell and value.
fn entry_parts<'a>(e: &'a SValue) -> (r: Option<((i64, i64), &'a SValue)>)
    ensures
        match r {
            Some((c, v)) => entry_cell(e.view()) == Some(
                (((c.0 as int), (c.1 as int)), v.view()),
            ),
            None => entry_cell(e.view()) is None,
        },
{
    match e {
        SValue::List(l) => {
            if l.len() >= 2 {
                proof {
                    assert(seq_view(l@)[0] == l@[0].view());
                    assert(seq_view(l@)[1] == l@[1].view());
                }
                match coords_from(&l[0]) {
                    Some((x, y)) => Some(((grid_of_milli(x), grid_of_milli(y)), &l[1])),
                    None => None,
                }
            } else {
                None
            }
        },
        _ => None,
    }
}

pub(crate) fn copy_bytes(v: &Vec<u8>) -> (r: Vec<u8>)
    ensures
        r@ == v@,
{
    let mut t: Vec<u8> = Vec::new();
    let mut k: usize = 0;
    while k < v.len()
        invariant
            0 <= k <= v@.len(),
            t@ == v@.subrange(0, k as int),
        decreases v@.len() - k,
    {
        t.push(v[k]);
        proof {
            assert(v@.subrange(0, k + 1 as int) =~= v@.subrange(0, k as int).push(v@[k as int]));
        }
        k += 1;
    }
    proof {
        assert(t@ =~= v@);
    }
    t
}

// ---------------------------------------------------------------------------
// The page
// ---------------------------------------------------------------------------

/// A page entity; reserved for future document keys, currently always
/// carrying no message.
pub struct PageEntity {
    pub message: Option<Vec<u8>>,
}

impl PageEntity {
    pub fn new(_v: &SValue) -> (r: Self)
        ensures
            r.message is None,
    {
        Self { message: None }
    }
}

/// A per-page tile visual override; reserved for future document keys,
/// currently always empty.
pub struct PageTile {
    pub image: Option<Vec<u8>>,
    pub color: Option<Vec<u8>>,
}

impl PageTile {
    pub fn new(_v: &SValue) -> (r: Self)
        ensures
            r.image is None,
            r.color is None,
    {
        Self { image: None, color: None }
    }
}

/// One fetched room: its source URL, the retained parse tree, and the
/// interpreted fields. Coordinates are in thousandths of a tile; map and
/// link cells are whole grid cells.
pub struct Page {
    pub url: Vec<u8>,
    pub tree: SValue,
    pub spawn: (i64, i64),
    pub width: u32,
    pub height: u32,
    pub bg_tile: Vec<u8>,
    pub map: Vec<((i64, i64), Vec<u8>)>,
    pub links: Vec<((i64, i64), Vec<u8>)>,
    pub entities: Vec<((i64, i64), PageEntity)>,
    pub tiles: Vec<(Vec<u8>, PageTile)>,
}

/// A document failed to parse as a well-formed symbolic expression.
pub enum ParseError {
    Document,
}

/// How a built page relates to the model `doc` of its document.
pub open spec fn page_matches(p: Page, doc: SVal, url: Seq<u8>) -> bool {
    &&& p.url@ == url
    &&& p.tree.view() == doc
    &&& (p.spawn.0 as int, p.spawn.1 as int) == spawn_of(doc)
    &&& p.width as int == dim_of(doc, key_width())
    &&& p.height as int == dim_of(doc, key_height())
    &&& p.bg_tile@ == bg_of(doc)
    &&& assoc_map(p.map@) == map_of(doc)
    &&& assoc_unique(p.map@)
    &&& assoc_map(p.links@) == links_of(doc)
    &&& assoc_unique(p.links@)
    &&& p.entities@.len() == 0
    &&& p.tiles@.len() == 0
}

impl Page {
    /// Interpret a parsed document as a page.
    pub fn new(url: Vec<u8>, tree: SValue) -> (r: Page)
        ensures
            page_matches(r, tree.view(), url@),
    {
        let empty_items: Vec<SValue> = Vec::new();
        let items: &Vec<SValue> = match &tree {
            SValue::List(l) => l,
            _ => &empty_items,
        };
        proof {
            match tree.view() {
                SVal::List(_) => {
                    assert(tree.view() == SVal::List(seq_view(items@)));
                },
                _ => {
                    assert(seq_view(items@) =~= Seq::<SVal>::empty());
                },
            }
        }

        let key: Vec<u8> = vec![58u8, 115u8, 112u8, 97u8, 119u8, 110u8];
        proof {
            assert(key@ =~= key_spawn());
        }
        let spawn: (i64, i64) = match plist_find(items, &key) {
            Some(v) => match coords_from(v) {
                Some(c) => c,
                None => (0, 0),
            },
            None => (0, 0),
        };

        let key: Vec<u8> = vec![58u8, 119u8, 105u8, 100u8, 116u8, 104u8];
        proof {
            assert(key@ =~= key_width());
        }
        let width: u32 = Self::dim_field(plist_find(items, &key));

        let key: Vec<u8> = vec![58u8, 104u8, 101u8, 105u8, 103u8, 104u8, 116u8];
        proof {
            assert(key@ =~= key_height());
        }
        let height: u32 = Self::dim_field(plist_find(items, &key));

        let key: Vec<u8> = vec![58u8, 98u8, 103u8, 45u8, 116u8, 105u8, 108u8, 101u8];
        proof {
            assert(key@ =~= key_bg_tile());
        }
        let bg_tile: Vec<u8> = match plist_find(items, &key) {
            Some(v) => match v {
                SValue::Sym(s) => copy_bytes(s),
                _ => {
                    let d: Vec<u8> = vec![103u8, 114u8, 97u8, 115u8, 115u8];
                    proof {
                        assert(d@ =~= default_bg_tile());
                    }
                    d
                },
            },
            None => {
                let d: Vec<u8> = vec![103u8, 114u8, 97u8, 115u8, 115u8];
                proof {
                    assert(d@ =~= default_bg_tile());
                }
                d
            },
        };

        let key: Vec<u8> = vec![58u8, 109u8, 97u8, 112u8];
        proof {
            assert(key@ =~= key_map());
        }
        let mut map: Vec<((i64, i64), Vec<u8>)> = Vec::new();
        match plist_find(items, &key) {
            Some(v) => match v {
                SValue::List(entries) => {
                    Self::fill_map(&mut map, entries);
                },
                _ => {
                    proof {
                        assert(assoc_map(map@) =~= Map::<(int, int), Seq<u8>>::empty());
                    }
                },
            },
            None => {
                proof {
                    assert(assoc_map(map@) =~= Map::<(int, int), Seq<u8>>::empty());
                }
            },
        }

        let key: Vec<u8> = vec![58u8, 108u8, 105u8, 110u8, 107u8, 115u8];
        proof {
            assert(key@ =~= key_links());
        }
        let mut links: Vec<((i64, i64), Vec<u8>)> = Vec::new();
        match plist_find(items, &key) {
            Some(v) => match v {
                SValue::List(entries) => {
                    Self::fill_links(&mut links, entries);
                },
                _ => {
                    proof {
                        assert(assoc_map(links@) =~= Map::<(int, int), Seq<u8>>::empty());
                    }
                },
            },
            None => {
                proof {
                    assert(assoc_map(links@) =~= Map::<(int, int), Seq<u8>>::empty());
                }
            },
        }

        Page {
            url,
            tree,
            spawn,
            width,
            height,
            bg_tile,
            map,
            links,
            entities: Vec::new(),
            tiles: Vec::new(),
        }
    }

    /// A grid dimension field: whole, nonnegative, within `u32`; else `0`.
    fn dim_field(v: Option<&SValue>) -> (r: u32)
        ensures
            match v {
                Some(w) => r as int == match as_num(w.view()) {
                    Some(m) => if m >= 0 && m % 1000 == 0 && m / 1000 <= u32::MAX {
                        m / 1000
                    } else {
                        0
                    },
                    None => 0,
                },
                None => r == 0,
            },
    {
        match v {
            Some(w) => match w {
                SValue::Num(m) => {
                    let m = *m;
                    if m >= 0 && m % 1000 == 0 && m / 1000 <= u32::MAX as i64 {
                        (m / 1000) as u32
                    } else {
                        0
                    }
                },
                _ => 0,
            },
            None => 0,
        }
    }

    /// Fold `:map` entries into the association vector.
    fn fill_map(m: &mut Vec<((i64, i64), Vec<u8>)>, entries: &Vec<SValue>)
        requires
            old(m)@.len() == 0,
        ensures
            assoc_unique(final(m)@),
            assoc_map(final(m)@) == map_entries(seq_view(entries@)),
    {
        proof {
            assert(assoc_map(m@) =~= Map::<(int, int), Seq<u8>>::empty());
            assert(seq_view(entries@).subrange(0, 0) =~= Seq::<SVal>::empty());
        }
        let mut k: usize = 0;
        while k < entries.len()
            invariant
                0 <= k <= entries@.len(),
                assoc_unique(m@),
                assoc_map(m@) == map_entries(seq_view(entries@).subrange(0, k as int)),
            decreases entries@.len() - k,
        {
            let ghost pre = seq_view(entries@).subrange(0, k as int);
            let ghost cur = seq_view(entries@).subrange(0, k + 1 as int);
            proof {
                assert(cur.drop_last() =~= pre);
                assert(cur.last() == entries@[k as int].view());
            }
            match entry_parts(&entries[k]) {
                Some((c, v)) => {
                    match v {
                        SValue::Sym(name) => {
                            let n = copy_bytes(name);
                            assoc_set(m, c, n);
                        },
                        _ => {},
                    }
                },
                None => {},
            }
            k += 1;
        }
        proof {
            assert(seq_view(entries@).subrange(0, entries@.len() as int) =~= seq_view(entries@));
        }
    }

    /// Fold `:links` entries into the association vector.
    fn fill_links(m: &mut Vec<((i64, i64), Vec<u8>)>, entries: &Vec<SValue>)
        requires
            old(m)@.len() == 0,
        ensures
            assoc_unique(final(m)@),
            assoc_map(final(m)@) == links_entries(seq_view(entries@)),
    {
        proof {
            assert(assoc_map(m@) =~= Map::<(int, int), Seq<u8>>::empty());
            assert(seq_view(entries@).subrange(0, 0) =~= Seq::<SVal>::empty());
        }
        let mut k: usize = 0;
        while k < entries.len()
            invariant
                0 <= k <= entries@.len(),
                assoc_unique(m@),
                assoc_map(m@) == links_entries(seq_view(entries@).subrange(0, k as int)),
            decreases entries@.len() - k,
        {
            let ghost pre = seq_view(entries@).subrange(0, k as int);
            let ghost cur = seq_view(entries@).subrange(0, k + 1 as int);
            proof {
                assert(cur.drop_last() =~= pre);
                assert(cur.last() == entries@[k as int].view());
            }
            match entry_parts(&entries[k]) {
                Some((c, v)) => {
                    match v {
                        SValue::Str(raw) => {
                            let n = copy_bytes(raw);
                            assoc_set(m, c, n);
                        },
                        _ => {},
                    }
                },
                None => {},
            }
            k += 1;
        }
        proof {
            assert(seq_view(entries@).subrange(0, entries@.len() as int) =~= seq_view(entries@));
        }
    }

    /// Parse a raw document into a page: the whole document-to-page
    /// contract. Fails exactly where the text is not a well-formed
    /// symbolic expression; malformed fields fall back to defaults.
    pub fn parse(body: &Vec<u8>, url: Vec<u8>) -> (r: Result<Page, ParseError>)
        requires
            body@.len() <= doc_len_limit(),
        ensures
            match r {
                Ok(p) => spec_parse_document(body@) matches Some(doc) && page_matches(
                    p,
                    doc,
                    url@,
                ),
                Err(_) => spec_parse_document(body@) is None,
            },
    {
        match parse_document(body) {
            Some(tree) => Ok(Page::new(url, tree)),
            None => Err(ParseError::Document),
        }
    }
}

} // verus!
