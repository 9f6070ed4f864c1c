//! The item price cache: its rows, the indexes that find a row by Warframe
//! Market URL or id together with a sub type, and the cache version check.
//!
//! Every lookup answers as a linear search from the first row would: of the
//! rows with the requested key, the earliest one is returned.
use vstd::prelude::*;
use vstd::hash_map::StringHashMap;

verus! {

/// The variant of an item a price applies to (rank, variant name, stars).
#[derive(Clone, Debug)]
pub struct SubType {
    pub rank: Option<i64>,
    pub variant: Option<String>,
    pub amber_stars: Option<i64>,
    pub cyan_stars: Option<i64>,
}

/// What a [`SubType`] holds.
pub struct SubTypeView {
    pub rank: Option<i64>,
    pub variant: Option<Seq<char>>,
    pub amber_stars: Option<i64>,
    pub cyan_stars: Option<i64>,
}

impl View for SubType {
    type V = SubTypeView;

    open spec fn view(&self) -> SubTypeView {
        SubTypeView {
            rank: self.rank,
            variant: match self.variant {
                Some(v) => Some(v@),
                None => None,
            },
            amber_stars: self.amber_stars,
            cyan_stars: self.cyan_stars,
        }
    }
}

/// The view of an optional sub type.
pub open spec fn sub_type_view(s: Option<SubType>) -> Option<SubTypeView> {
    match s {
        Some(t) => Some(t@),
        None => None,
    }
}

/// Two optional sub types have the same rank, variant name, amber stars and
/// cyan stars, or are both absent.
pub open spec fn same_fields(a: Option<SubType>, b: Option<SubType>) -> bool {
    match (a, b) {
        (Some(x), Some(y)) => {
            &&& x.rank == y.rank
            &&& x.amber_stars == y.amber_stars
            &&& x.cyan_stars == y.cyan_stars
            &&& match (x.variant, y.variant) {
                (Some(v), Some(w)) => v@ == w@,
                (None, None) => true,
                _ => false,
            }
        },
        (None, None) => true,
        _ => false,
    }
}

/// Sub types are told apart by every one of their fields: two have the same
/// view exactly when rank, variant, amber stars and cyan stars all agree.
pub proof fn law_sub_type_view_keeps_every_field(a: Option<SubType>, b: Option<SubType>)
    ensures
        sub_type_view(a) == sub_type_view(b) <==> same_fields(a, b),
{
    match (a, b) {
        (Some(x), Some(y)) => {
            if sub_type_view(a) == sub_type_view(b) {
                assert(x@ == y@);
                assert(x@.rank == y@.rank && x@.cyan_stars == y@.cyan_stars && x@.amber_stars == y@.amber_stars);
                assert(x@.variant == y@.variant);
            }
            if same_fields(a, b) {
                assert(x@ =~= y@);
            }
        },
        _ => {},
    }
}

fn same_i64(a: &Option<i64>, b: &Option<i64>) -> (r: bool)
    ensures
        r == (*a == *b),
{
    match (a, b) {
        (Some(x), Some(y)) => *x == *y,
        (None, None) => true,
        _ => false,
    }
}

fn same_text(a: &Option<String>, b: &Option<String>) -> (r: bool)
    ensures
        r == (match (*a, *b) {
            (Some(x), Some(y)) => x@ == y@,
            (None, None) => true,
            _ => false,
        }),
{
    match (a, b) {
        (Some(x), Some(y)) => *x == *y,
        (None, None) => true,
        _ => false,
    }
}

/// Whether two optional sub types are the same.
pub fn same_sub_type(a: &Option<SubType>, b: &Option<SubType>) -> (r: bool)
    ensures
        r == (sub_type_view(*a) == sub_type_view(*b)),
        r == same_fields(*a, *b),
{
    proof {
        law_sub_type_view_keeps_every_field(*a, *b);
    }
    match (a, b) {
        (Some(x), Some(y)) => {
            let r = same_i64(&x.rank, &y.rank) && same_text(&x.variant, &y.variant)
                && same_i64(&x.amber_stars, &y.amber_stars) && same_i64(&x.cyan_stars, &y.cyan_stars);
            proof {
                if r {
                    assert(x@ == y@);
                } else {
                    assert(x@ != y@);
                }
            }
            r
        },
        (None, None) => true,
        _ => false,
    }
}

impl SubType {
    /// A copy of this sub type.
    pub fn duplicate(&self) -> (r: SubType)
        ensures
            r@ == self@,
    {
        SubType {
            rank: self.rank,
            variant: match &self.variant {
                Some(v) => Some(v.clone()),
                None => None,
            },
            amber_stars: self.amber_stars,
            cyan_stars: self.cyan_stars,
        }
    }
}

/// One row of the price cache: the keys it is found by, and the rest of the
/// price information as `data`.
#[derive(Clone, Debug)]
pub struct PriceRow<P> {
    pub wfm_url: String,
    pub wfm_id: String,
    pub sub_type: Option<SubType>,
    pub data: P,
}

/// The keys of a row.
pub struct RowKey {
    pub url: Seq<char>,
    pub id: Seq<char>,
    pub sub_type: Option<SubTypeView>,
}

/// The keys of a row.
pub open spec fn row_key<P>(r: PriceRow<P>) -> RowKey {
    RowKey { url: r.wfm_url@, id: r.wfm_id@, sub_type: sub_type_view(r.sub_type) }
}

/// The keys of each row.
pub open spec fn row_keys<P>(rows: Seq<PriceRow<P>>) -> Seq<RowKey> {
    rows.map_values(|r: PriceRow<P>| row_key(r))
}

/// Which text key an index is built on.
#[derive(PartialEq, Eq, Structural, Clone, Copy, Debug)]
pub enum KeyKind {
    /// The Warframe Market URL name.
    Url,
    /// The Warframe Market item id.
    Id,
}

/// The text key of a row for an index of kind `kind`.
pub open spec fn key_text(k: RowKey, kind: KeyKind) -> Seq<char> {
    match kind {
        KeyKind::Url => k.url,
        KeyKind::Id => k.id,
    }
}

/// A row with keys `k` answers a lookup of `text` and `sub_type`.
pub open spec fn key_matches(k: RowKey, kind: KeyKind, text: Seq<char>, sub_type: Option<SubTypeView>) -> bool {
    key_text(k, kind) == text && k.sub_type == sub_type
}

/// Two rows have the same index key.
pub open spec fn same_key(a: RowKey, b: RowKey, kind: KeyKind) -> bool {
    key_matches(a, kind, key_text(b, kind), b.sub_type)
}

/// The index of the first row, searching from the start, whose key is `text`
/// and `sub_type`; `None` when no row has that key.
pub open spec fn find_first(keys: Seq<RowKey>, kind: KeyKind, text: Seq<char>, sub_type: Option<SubTypeView>) -> Option<int>
    decreases keys.len(),
{
    if keys.len() == 0 {
        None
    } else {
        match find_first(keys.drop_last(), kind, text, sub_type) {
            Some(i) => Some(i),
            None => if key_matches(keys.last(), kind, text, sub_type) {
                Some(keys.len() - 1)
            } else {
                None
            },
        }
    }
}

/// Row `i` is the first of the rows with its key.
pub open spec fn is_first(keys: Seq<RowKey>, i: int, kind: KeyKind) -> bool {
    &&& 0 <= i < keys.len()
    &&& forall|j: int| 0 <= j < i ==> !same_key(#[trigger] keys[j], keys[i], kind)
}

/// A lookup returns the earliest row whose key is the one asked for, and
/// nothing only when no row has that key.
pub proof fn lemma_find_first(keys: Seq<RowKey>, kind: KeyKind, text: Seq<char>, sub_type: Option<SubTypeView>)
    ensures
        match find_first(keys, kind, text, sub_type) {
            Some(i) => {
                &&& 0 <= i < keys.len()
                &&& key_matches(keys[i], kind, text, sub_type)
                &&& forall|j: int| 0 <= j < i ==> !key_matches(#[trigger] keys[j], kind, text, sub_type)
            },
            None => forall|j: int| 0 <= j < keys.len() ==> !key_matches(#[trigger] keys[j], kind, text, sub_type),
        },
    decreases keys.len(),
{
    if keys.len() > 0 {
        lemma_find_first(keys.drop_last(), kind, text, sub_type);
        match find_first(keys.drop_last(), kind, text, sub_type) {
            Some(i) => {
                assert forall|j: int| 0 <= j < i implies !key_matches(#[trigger] keys[j], kind, text, sub_type) by {
                    assert(keys.drop_last()[j] == keys[j]);
                }
                assert(keys.drop_last()[i] == keys[i]);
            },
            None => {
                assert forall|j: int| 0 <= j < keys.len() - 1 implies !key_matches(#[trigger] keys[j], kind, text, sub_type) by {
                    assert(keys.drop_last()[j] == keys[j]);
                }
            },
        }
    }
}

/// A lookup by text and sub type returns the earliest row whose text key is
/// the one asked for and whose sub type agrees with the one asked for in every
/// field (rank, variant, amber stars, cyan stars), and returns nothing only
/// when no row does.
pub proof fn law_lookup_matches_every_field<P>(
    rows: Seq<PriceRow<P>>,
    kind: KeyKind,
    text: Seq<char>,
    sub_type: Option<SubType>,
)
    ensures
        match find_first(row_keys(rows), kind, text, sub_type_view(sub_type)) {
            Some(i) => {
                &&& 0 <= i < rows.len()
                &&& key_text(row_key(rows[i]), kind) == text
                &&& same_fields(rows[i].sub_type, sub_type)
                &&& forall|j: int|
                    0 <= j < i ==> !(key_text(row_key(#[trigger] rows[j]), kind) == text && same_fields(
                        rows[j].sub_type,
                        sub_type,
                    ))
            },
            None => forall|j: int|
                0 <= j < rows.len() ==> !(key_text(row_key(#[trigger] rows[j]), kind) == text && same_fields(
                    rows[j].sub_type,
                    sub_type,
                )),
        },
{
    let keys = row_keys(rows);
    lemma_find_first(keys, kind, text, sub_type_view(sub_type));
    assert(keys.len() == rows.len());
    assert forall|j: int| #![trigger keys[j]] #![trigger rows[j]] 0 <= j < rows.len() implies keys[j] == row_key(rows[j]) && (key_matches(
        keys[j],
        kind,
        text,
        sub_type_view(sub_type),
    ) <==> (key_text(row_key(rows[j]), kind) == text && same_fields(rows[j].sub_type, sub_type))) by {
        law_sub_type_view_keeps_every_field(rows[j].sub_type, sub_type);
    }
}

/// A row that is the first with its key is what a lookup of its key returns,
/// and the other way round.
proof fn lemma_first_iff_found(keys: Seq<RowKey>, kind: KeyKind, i: int)
    requires
        0 <= i < keys.len(),
    ensures
        is_first(keys, i, kind) <==> find_first(keys, kind, key_text(keys[i], kind), keys[i].sub_type) == Some(i),
{
    lemma_find_first(keys, kind, key_text(keys[i], kind), keys[i].sub_type);
}

/// Every row can be found by its own key: the lookup returns that row or an
/// earlier row with the same key, which is the first with that key.
pub proof fn lemma_first_exists(keys: Seq<RowKey>, kind: KeyKind, j: int)
    requires
        0 <= j < keys.len(),
    ensures
        match find_first(keys, kind, key_text(keys[j], kind), keys[j].sub_type) {
            Some(i) => i <= j && is_first(keys, i, kind) && same_key(keys[i], keys[j], kind),
            None => false,
        },
{
    let text = key_text(keys[j], kind);
    let st = keys[j].sub_type;
    lemma_find_first(keys, kind, text, st);
    match find_first(keys, kind, text, st) {
        Some(i) => {
            assert forall|k: int| 0 <= k < i implies !same_key(#[trigger] keys[k], keys[i], kind) by {
                assert(!key_matches(keys[k], kind, text, st));
            }
        },
        None => {
            assert(key_matches(keys[j], kind, text, st));
        },
    }
}

/// The lookup index of one kind, as a map from key text to the row numbers
/// stored under it.
pub open spec fn bucket_map(m: Map<Seq<char>, Vec<usize>>) -> Map<Seq<char>, Seq<usize>> {
    m.map_values(|v: Vec<usize>| v@)
}

/// The index `m` of kind `kind` describes the first `n` rows: under each key text
/// it holds exactly the rows among them that are the first with their key.
pub open spec fn index_wf(m: Map<Seq<char>, Vec<usize>>, keys: Seq<RowKey>, n: int, kind: KeyKind) -> bool {
    &&& 0 <= n <= keys.len()
    &&& forall|t: Seq<char>, p: int| #![trigger m[t]@[p]]
        m.contains_key(t) && 0 <= p < m[t]@.len() ==> {
            let i = m[t]@[p] as int;
            &&& i < n
            &&& key_text(keys[i], kind) == t
            &&& is_first(keys, i, kind)
        }
    &&& forall|i: int| 0 <= i < n && #[trigger] is_first(keys, i, kind) ==> {
            &&& m.contains_key(key_text(keys[i], kind))
            &&& m[key_text(keys[i], kind)]@.contains(i as usize)
        }
}

/// The row number in `bucket` whose row has the sub type `sub_type`.
fn find_in_bucket<P>(rows: &Vec<PriceRow<P>>, bucket: &Vec<usize>, sub_type: &Option<SubType>) -> (r: Option<usize>)
    requires
        forall|p: int| 0 <= p < bucket@.len() ==> #[trigger] bucket@[p] < rows@.len(),
    ensures
        match r {
            Some(i) => bucket@.contains(i) && i < rows@.len()
                && sub_type_view(rows@[i as int].sub_type) == sub_type_view(*sub_type),
            None => forall|p: int| 0 <= p < bucket@.len()
                ==> sub_type_view(rows@[#[trigger] bucket@[p] as int].sub_type) != sub_type_view(*sub_type),
        },
{
    let mut p: usize = 0;
    while p < bucket.len()
        invariant
            p <= bucket@.len(),
            forall|q: int| 0 <= q < bucket@.len() ==> #[trigger] bucket@[q] < rows@.len(),
            forall|q: int| 0 <= q < p
                ==> sub_type_view(rows@[#[trigger] bucket@[q] as int].sub_type) != sub_type_view(*sub_type),
        decreases bucket@.len() - p,
    {
        let i = bucket[p];
        if same_sub_type(&rows[i].sub_type, sub_type) {
            assert(bucket@[p as int] == i);
            return Some(i);
        }
        p = p + 1;
    }
    None
}

fn text_of<P>(row: &PriceRow<P>, kind: KeyKind) -> (r: &str)
    ensures
        r@ == key_text(row_key(*row), kind),
{
    match kind {
        KeyKind::Url => row.wfm_url.as_str(),
        KeyKind::Id => row.wfm_id.as_str(),
    }
}

/// Looks up `text` and `sub_type` in the index `m` of kind `kind` over `rows`.
fn index_lookup<P>(
    m: &StringHashMap<Vec<usize>>,
    rows: &Vec<PriceRow<P>>,
    kind: KeyKind,
    text: &str,
    sub_type: &Option<SubType>,
) -> (r: Option<usize>)
    requires
        index_wf(m@, row_keys(rows@), rows@.len() as int, kind),
    ensures
        match r {
            Some(i) => find_first(row_keys(rows@), kind, text@, sub_type_view(*sub_type)) == Some(i as int),
            None => find_first(row_keys(rows@), kind, text@, sub_type_view(*sub_type)) is None,
        },
{
    let ghost keys = row_keys(rows@);
    let ghost st = sub_type_view(*sub_type);
    proof {
        lemma_find_first(keys, kind, text@, st);
    }
    match m.get(text) {
        None => {
            proof {
                if let Some(i) = find_first(keys, kind, text@, st) {
                    lemma_first_exists(keys, kind, i);
                }
            }
            None
        },
        Some(bucket) => {
            assert forall|p: int| 0 <= p < bucket@.len() implies #[trigger] bucket@[p] < rows@.len() by {
                assert(m@[text@]@[p] == bucket@[p]);
            }
            match find_in_bucket(rows, bucket, sub_type) {
                Some(i) => {
                    proof {
                        let p = choose|p: int| 0 <= p < bucket@.len() && bucket@[p] == i;
                        assert(m@[text@]@[p] == bucket@[p]);
                        assert(keys[i as int] == row_key(rows@[i as int]));
                        lemma_first_iff_found(keys, kind, i as int);
                    }
                    Some(i)
                },
                None => {
                    proof {
                        if let Some(i) = find_first(keys, kind, text@, st) {
                            lemma_first_exists(keys, kind, i);
                            assert(m@[text@]@.contains(i as usize));
                            let p = choose|p: int| 0 <= p < bucket@.len() && bucket@[p] == i as usize;
                            assert(keys[i] == row_key(rows@[i]));
                            assert(rows@.len() == rows.len());
                            assert(bucket@[p] as int == i);
                        }
                    }
                    None
                },
            }
        },
    }
}


fn copy_bucket(b: &Vec<usize>) -> (r: Vec<usize>)
    ensures
        r@ == b@,
{
    let mut r: Vec<usize> = Vec::new();
    let mut i: usize = 0;
    while i < b.len()
        invariant
            i <= b@.len(),
            r@ == b@.take(i as int),
        decreases b@.len() - i,
    {
        r.push(b[i]);
        i = i + 1;
        assert(r@ =~= b@.take(i as int));
    }
    assert(b@.take(b@.len() as int) =~= b@);
    r
}

/// Row `n` is the first with its key exactly when no row number stored under
/// its key text has its sub type.
proof fn lemma_first_iff_absent(m: Map<Seq<char>, Vec<usize>>, keys: Seq<RowKey>, n: int, kind: KeyKind)
    requires
        index_wf(m, keys, n, kind),
        n < keys.len(),
        keys.len() <= usize::MAX,
    ensures
        is_first(keys, n, kind) <==> !(m.contains_key(key_text(keys[n], kind)) && exists|p: int|
            0 <= p < m[key_text(keys[n], kind)]@.len()
                && (#[trigger] keys[m[key_text(keys[n], kind)]@[p] as int]).sub_type == keys[n].sub_type),
{
    let t = key_text(keys[n], kind);
    if !is_first(keys, n, kind) {
        let j = choose|j: int| 0 <= j < n && same_key(#[trigger] keys[j], keys[n], kind);
        lemma_first_exists(keys, kind, j);
        let i = find_first(keys, kind, key_text(keys[j], kind), keys[j].sub_type).unwrap();
        assert(is_first(keys, i, kind));
        assert(m[t]@.contains(i as usize));
        let p = choose|p: int| 0 <= p < m[t]@.len() && m[t]@[p] == i as usize;
        assert(m[t]@[p] as int == i);
        assert(keys[m[t]@[p] as int].sub_type == keys[n].sub_type);
    } else {
        if m.contains_key(t) && exists|p: int| 0 <= p < m[t]@.len()
            && (#[trigger] keys[m[t]@[p] as int]).sub_type == keys[n].sub_type {
            let p = choose|p: int| 0 <= p < m[t]@.len()
                && (#[trigger] keys[m[t]@[p] as int]).sub_type == keys[n].sub_type;
            let i = m[t]@[p] as int;
            assert(i < n && key_text(keys[i], kind) == t);
            assert(same_key(keys[i], keys[n], kind));
        }
    }
}

/// Builds the index of kind `kind` over `rows`: each key text maps to the rows
/// that are the first with their key, so earlier rows win over later ones.
fn build_index<P>(rows: &Vec<PriceRow<P>>, kind: KeyKind) -> (m: StringHashMap<Vec<usize>>)
    ensures
        index_wf(m@, row_keys(rows@), rows@.len() as int, kind),
{
    let ghost keys = row_keys(rows@);
    let mut m: StringHashMap<Vec<usize>> = StringHashMap::with_capacity(rows.len());
    let mut n: usize = 0;
    while n < rows.len()
        invariant
            n <= rows@.len(),
            keys == row_keys(rows@),
            index_wf(m@, keys, n as int, kind),
        decreases rows@.len() - n,
    {
        let row = &rows[n];
        let text = text_of(row, kind);
        let ghost t = text@;
        assert(keys[n as int] == row_key(rows@[n as int]));
        proof {
            assert(keys.len() == rows@.len());
            lemma_first_iff_absent(m@, keys, n as int, kind);
        }
        let found = match m.get(text) {
            None => None,
            Some(bucket) => {
                assert forall|p: int| 0 <= p < bucket@.len() implies #[trigger] bucket@[p] < rows@.len() by {
                    assert(m@[t]@[p] == bucket@[p]);
                }
                let f = find_in_bucket(rows, bucket, &row.sub_type);
                proof {
                    if f is None {
                        assert forall|p: int| 0 <= p < m@[t]@.len() implies
                            (#[trigger] keys[m@[t]@[p] as int]).sub_type != keys[n as int].sub_type by {
                            assert(m@[t]@[p] == bucket@[p]);
                            assert(keys[bucket@[p] as int] == row_key(rows@[bucket@[p] as int]));
                        }
                    } else {
                        let i = f.unwrap();
                        let p = choose|p: int| 0 <= p < bucket@.len() && bucket@[p] == i;
                        assert(m@[t]@[p] == bucket@[p]);
                        assert(keys[i as int] == row_key(rows@[i as int]));
                        assert(keys[m@[t]@[p] as int].sub_type == keys[n as int].sub_type);
                    }
                }
                f
            },
        };
        if found.is_none() {
            let ghost old_m = m@;
            let mut bucket = match m.get(text) {
                None => Vec::new(),
                Some(b) => copy_bucket(b),
            };
            let ghost old_bucket = bucket@;
            assert(old_m.contains_key(t) ==> old_bucket == old_m[t]@);
            assert(!old_m.contains_key(t) ==> old_bucket == Seq::<usize>::empty());
            bucket.push(n);
            m.insert(text.to_owned(), bucket);
            proof {
                assert(is_first(keys, n as int, kind));
                assert(m@ == old_m.insert(t, m@[t]));
                assert(m@[t]@ == old_bucket.push(n));
                assert forall|u: Seq<char>, p: int| #![trigger m@[u]@[p]]
                    m@.contains_key(u) && 0 <= p < m@[u]@.len() implies {
                        let i = m@[u]@[p] as int;
                        &&& i < n + 1
                        &&& key_text(keys[i], kind) == u
                        &&& is_first(keys, i, kind)
                    } by {
                    if u == t {
                        if p < old_bucket.len() {
                            assert(m@[u]@[p] == old_m[t]@[p]);
                        }
                    } else {
                        assert(m@[u] == old_m[u]);
                        assert(m@[u]@[p] == old_m[u]@[p]);
                    }
                }
                assert forall|i: int| 0 <= i < n + 1 && #[trigger] is_first(keys, i, kind) implies {
                    &&& m@.contains_key(key_text(keys[i], kind))
                    &&& m@[key_text(keys[i], kind)]@.contains(i as usize)
                } by {
                    if i < n {
                        let u = key_text(keys[i], kind);
                        assert(old_m[u]@.contains(i as usize));
                        if u == t {
                            let p = choose|p: int| 0 <= p < old_m[u]@.len() && old_m[u]@[p] == i as usize;
                            assert(m@[u]@[p] == i as usize);
                        } else {
                            assert(m@[u] == old_m[u]);
                        }
                    } else {
                        assert(m@[t]@[old_bucket.len() as int] == n);
                    }
                }
            }
        } else {
            proof {
                assert(!is_first(keys, n as int, kind));
                assert forall|i: int| 0 <= i < n + 1 && #[trigger] is_first(keys, i, kind) implies {
                    &&& m@.contains_key(key_text(keys[i], kind))
                    &&& m@[key_text(keys[i], kind)]@.contains(i as usize)
                } by {
                    assert(i < n);
                }
            }
        }
        n = n + 1;
    }
    m
}


/// The rows of `rows` whose entry in `keep` is true, in order.
pub open spec fn kept<T>(rows: Seq<T>, keep: Seq<bool>) -> Seq<T>
    decreases rows.len(),
{
    if rows.len() == 0 || keep.len() != rows.len() {
        Seq::empty()
    } else if keep.last() {
        kept(rows.drop_last(), keep.drop_last()).push(rows.last())
    } else {
        kept(rows.drop_last(), keep.drop_last())
    }
}

/// The price rows, with the indexes that find a row by URL or by id together
/// with its sub type.
#[verifier::reject_recursive_types(P)]
pub struct ItemPriceModule<P> {
    items: Vec<PriceRow<P>>,
    by_url: StringHashMap<Vec<usize>>,
    by_id: StringHashMap<Vec<usize>>,
}

impl<P> View for ItemPriceModule<P> {
    type V = Seq<PriceRow<P>>;

    closed spec fn view(&self) -> Seq<PriceRow<P>> {
        self.items@
    }
}

impl<P> ItemPriceModule<P> {
    /// Both indexes describe all rows.
    #[verifier::type_invariant]
    spec fn indexes_match_rows(self) -> bool {
        &&& index_wf(self.by_url@, row_keys(self.items@), self.items@.len() as int, KeyKind::Url)
        &&& index_wf(self.by_id@, row_keys(self.items@), self.items@.len() as int, KeyKind::Id)
    }

    /// An empty cache.
    pub fn new() -> (r: Self)
        ensures
            r@ == Seq::<PriceRow<P>>::empty(),
    {
        let items: Vec<PriceRow<P>> = Vec::new();
        let by_url = build_index(&items, KeyKind::Url);
        let by_id = build_index(&items, KeyKind::Id);
        ItemPriceModule { items, by_url, by_id }
    }

    /// Decides whether the price cache must be downloaded again: always when the
    /// cache file is missing, otherwise when the local version differs from the
    /// remote one. The remote version is handed back with the answer.
    pub fn check_update(current_version: &str, remote_version: String, cache_file_exists: bool) -> (r: (bool, String))
        ensures
            r.0 == (!cache_file_exists || current_version@ != remote_version@),
            r.1@ == remote_version@,
    {
        if !cache_file_exists {
            (true, remote_version)
        } else {
            let current = current_version.to_owned();
            let differs = !(current == remote_version);
            (differs, remote_version)
        }
    }

    /// Replaces the rows with `rows` and rebuilds both indexes; returns the
    /// number of rows.
    pub fn load(&mut self, rows: Vec<PriceRow<P>>) -> (count: usize)
        ensures
            final(self)@ == rows@,
            count == rows@.len(),
    {
        let by_url = build_index(&rows, KeyKind::Url);
        let by_id = build_index(&rows, KeyKind::Id);
        let count = rows.len();
        *self = ItemPriceModule { items: rows, by_url, by_id };
        count
    }

    /// The number of rows.
    pub fn len(&self) -> (r: usize)
        ensures
            r == self@.len(),
    {
        self.items.len()
    }

    /// The first row, in load order, with Warframe Market URL `url` and sub type
    /// `sub_type`; `None` when there is none.
    pub fn find_by(&self, url: &str, sub_type: &Option<SubType>) -> (r: Option<&PriceRow<P>>)
        ensures
            match find_first(row_keys(self@), KeyKind::Url, url@, sub_type_view(*sub_type)) {
                Some(i) => r == Some(&self@[i]),
                None => r is None,
            },
            r matches Some(row) ==> row.wfm_url@ == url@ && same_fields(row.sub_type, *sub_type),
    {
        proof {
            use_type_invariant(self);
            law_lookup_matches_every_field(self@, KeyKind::Url, url@, *sub_type);
        }
        match index_lookup(&self.by_url, &self.items, KeyKind::Url, url, sub_type) {
            Some(i) => {
                proof {
                    lemma_find_first(row_keys(self.items@), KeyKind::Url, url@, sub_type_view(*sub_type));
                }
                Some(&self.items[i])
            },
            None => None,
        }
    }

    /// The first row, in load order, with Warframe Market item id `id` and sub
    /// type `sub_type`; `None` when there is none.
    pub fn find_by_id(&self, id: &str, sub_type: &Option<SubType>) -> (r: Option<&PriceRow<P>>)
        ensures
            match find_first(row_keys(self@), KeyKind::Id, id@, sub_type_view(*sub_type)) {
                Some(i) => r == Some(&self@[i]),
                None => r is None,
            },
            r matches Some(row) ==> row.wfm_id@ == id@ && same_fields(row.sub_type, *sub_type),
    {
        proof {
            use_type_invariant(self);
            law_lookup_matches_every_field(self@, KeyKind::Id, id@, *sub_type);
        }
        match index_lookup(&self.by_id, &self.items, KeyKind::Id, id, sub_type) {
            Some(i) => {
                proof {
                    lemma_find_first(row_keys(self.items@), KeyKind::Id, id@, sub_type_view(*sub_type));
                }
                Some(&self.items[i])
            },
            None => None,
        }
    }

    /// The rows for which `predicate` answers true, in load order.
    pub fn get_by_filter<F: Fn(&PriceRow<P>) -> bool>(&self, predicate: F) -> (r: Vec<&PriceRow<P>>)
        requires
            forall|i: int| 0 <= i < self@.len() ==> call_requires(predicate, (&self@[i],)),
        ensures
            exists|keep: Seq<bool>| {
                &&& keep.len() == self@.len()
                &&& forall|i: int| 0 <= i < self@.len() ==> call_ensures(predicate, (&self@[i],), #[trigger] keep[i])
                &&& r@.map_values(|x: &PriceRow<P>| *x) == kept(self@, keep)
            },
    {
        let mut r: Vec<&PriceRow<P>> = Vec::new();
        let ghost mut keep: Seq<bool> = Seq::empty();
        let mut i: usize = 0;
        while i < self.items.len()
            invariant
                i <= self.items@.len(),
                self@ == self.items@,
                forall|j: int| 0 <= j < self@.len() ==> call_requires(predicate, (&self@[j],)),
                keep.len() == i,
                forall|j: int| 0 <= j < i ==> call_ensures(predicate, (&self@[j],), #[trigger] keep[j]),
                r@.map_values(|x: &PriceRow<P>| *x) == kept(self@.take(i as int), keep),
            decreases self.items@.len() - i,
        {
            let row = &self.items[i];
            let b = predicate(row);
            let ghost old_r = r@;
            let ghost old_keep = keep;
            proof {
                keep = keep.push(b);
            }
            if b {
                r.push(row);
                assert(r@.map_values(|x: &PriceRow<P>| *x) =~= old_r.map_values(|x: &PriceRow<P>| *x).push(*row));
            }
            proof {
                assert(self@.take(i + 1).drop_last() =~= self@.take(i as int));
                assert(keep.drop_last() =~= old_keep);
                assert(self@.take(i + 1).last() == *row);
                assert(keep.last() == b);
                assert(r@.map_values(|x: &PriceRow<P>| *x) == kept(self@.take(i + 1), keep));
            }
            i = i + 1;
        }
        assert(self@.take(self@.len() as int) =~= self@);
        r
    }
}


/// Appending rows never changes a lookup that already succeeds: the first row
/// with a key wins over later ones. A lookup that finds nothing among the
/// earlier rows finds the first match among the appended ones.
pub proof fn lemma_append_keeps_first(
    keys: Seq<RowKey>,
    more: Seq<RowKey>,
    kind: KeyKind,
    text: Seq<char>,
    sub_type: Option<SubTypeView>,
)
    ensures
        find_first(keys + more, kind, text, sub_type) == match find_first(keys, kind, text, sub_type) {
            Some(i) => Some(i),
            None => match find_first(more, kind, text, sub_type) {
                Some(j) => Some(j + keys.len()),
                None => None,
            },
        },
{
    let all = keys + more;
    lemma_find_first(all, kind, text, sub_type);
    lemma_find_first(keys, kind, text, sub_type);
    lemma_find_first(more, kind, text, sub_type);
    match find_first(keys, kind, text, sub_type) {
        Some(i) => {
            assert(all[i] == keys[i]);
            match find_first(all, kind, text, sub_type) {
                Some(k) => {
                    if k < i {
                        assert(all[k] == keys[k]);
                    } else if k > i {
                        assert(!key_matches(all[i], kind, text, sub_type));
                    }
                },
                None => {
                    assert(!key_matches(all[i], kind, text, sub_type));
                },
            }
        },
        None => {
            match find_first(more, kind, text, sub_type) {
                Some(j) => {
                    assert(all[j + keys.len()] == more[j]);
                    match find_first(all, kind, text, sub_type) {
                        Some(k) => {
                            if k < keys.len() {
                                assert(all[k] == keys[k]);
                            } else if k < j + keys.len() {
                                assert(all[k] == more[k - keys.len()]);
                            } else if k > j + keys.len() {
                                assert(!key_matches(all[j + keys.len()], kind, text, sub_type));
                            }
                        },
                        None => {
                            assert(!key_matches(all[j + keys.len()], kind, text, sub_type));
                        },
                    }
                },
                None => {
                    match find_first(all, kind, text, sub_type) {
                        Some(k) => {
                            if k < keys.len() {
                                assert(all[k] == keys[k]);
                            } else {
                                assert(all[k] == more[k - keys.len()]);
                            }
                        },
                        None => {},
                    }
                },
            }
        },
    }
}

} // verus!
