//! The statistics the metadata database keeps beside object metadata (per
//! content type, per day, per key prefix), the changes a put or a delete
//! makes to them, and the size-range query.

use crate::meta::{extract_prefix, key_prefix, ObjectMeta};
use crate::store::copy_string;
use vstd::prelude::*;

verus! {

/// Objects of one content type.
#[derive(Debug, Clone)]
pub struct StatsByType {
    pub content_type: String,
    pub count: i64,
    pub total_size: i64,
    pub min_size: Option<i64>,
    pub max_size: Option<i64>,
    pub updated_at: String,
}

/// Objects created on one day.
#[derive(Debug, Clone)]
pub struct StatsByDay {
    pub date: String,
    pub count: i64,
    pub total_size: i64,
    pub updated_at: String,
}

/// Objects under one key prefix.
#[derive(Debug, Clone)]
pub struct StatsByPrefix {
    pub prefix: String,
    pub count: i64,
    pub total_size: i64,
    pub updated_at: String,
}

/// All statistics at once.
#[derive(Debug, Clone)]
pub struct StatsSummary {
    pub total_objects: i64,
    pub total_size: i64,
    pub by_type: Vec<StatsByType>,
    pub by_day: Vec<StatsByDay>,
    pub by_prefix: Vec<StatsByPrefix>,
}

/// One change to the statistics tables.
#[derive(Debug, Clone)]
pub enum StatsChange {
    /// An object of this type was rewritten: its old size leaves the total,
    /// its new size enters it and widens the minimum and maximum.
    TypeResized { content_type: String, old_size: i64, new_size: i64 },
    /// A new object of this type: one more, its size added, the minimum and
    /// maximum widened; the row is created when missing.
    TypeAdded { content_type: String, size: i64 },
    /// An object of this type was deleted: one less, its size removed.
    TypeRemoved { content_type: String, size: i64 },
    /// An object was rewritten on this day.
    DayResized { date: String, old_size: i64, new_size: i64 },
    /// A new object on this day; the row is created when missing.
    DayAdded { date: String, size: i64 },
    /// An object created on this day was deleted.
    DayRemoved { date: String, size: i64 },
    /// An object under this prefix was rewritten.
    PrefixResized { prefix: String, old_size: i64, new_size: i64 },
    /// A new object under this prefix; the row is created when missing.
    PrefixAdded { prefix: String, size: i64 },
    /// An object under this prefix was deleted.
    PrefixRemoved { prefix: String, size: i64 },
}

/// The text of a change, field by field.
pub enum ChangeView {
    TypeResized(Seq<char>, i64, i64),
    TypeAdded(Seq<char>, i64),
    TypeRemoved(Seq<char>, i64),
    DayResized(Seq<char>, i64, i64),
    DayAdded(Seq<char>, i64),
    DayRemoved(Seq<char>, i64),
    PrefixResized(Seq<char>, i64, i64),
    PrefixAdded(Seq<char>, i64),
    PrefixRemoved(Seq<char>, i64),
}

/// The view of a change.
pub open spec fn change_view(c: StatsChange) -> ChangeView {
    match c {
        StatsChange::TypeResized { content_type, old_size, new_size } => ChangeView::TypeResized(content_type@, old_size, new_size),
        StatsChange::TypeAdded { content_type, size } => ChangeView::TypeAdded(content_type@, size),
        StatsChange::TypeRemoved { content_type, size } => ChangeView::TypeRemoved(content_type@, size),
        StatsChange::DayResized { date, old_size, new_size } => ChangeView::DayResized(date@, old_size, new_size),
        StatsChange::DayAdded { date, size } => ChangeView::DayAdded(date@, size),
        StatsChange::DayRemoved { date, size } => ChangeView::DayRemoved(date@, size),
        StatsChange::PrefixResized { prefix, old_size, new_size } => ChangeView::PrefixResized(prefix@, old_size, new_size),
        StatsChange::PrefixAdded { prefix, size } => ChangeView::PrefixAdded(prefix@, size),
        StatsChange::PrefixRemoved { prefix, size } => ChangeView::PrefixRemoved(prefix@, size),
    }
}

/// The views of a list of changes.
pub open spec fn change_views(cs: Seq<StatsChange>) -> Seq<ChangeView> {
    cs.map_values(|c: StatsChange| change_view(c))
}

/// The changes a put of `meta` makes, `old` being the size, content type
/// and creation time stored before under its key (none for a new key) and
/// `today` the current UTC date. A new key adds the object to its content
/// type's row (when it has one), today's row and its prefix's row (when its
/// key has one). A rewrite resizes a row it stays in and moves the object
/// between rows it changes: a changed content type leaves the old type's
/// row and joins the new one's, and an object created on another day leaves
/// that day's row and joins today's. Sizes are taken as `i64`, as SQLite
/// stores them.
pub open spec fn put_changes(meta: ObjectMeta, old: Option<(i64, Option<Seq<char>>, Seq<char>)>, today: Seq<char>) -> Seq<ChangeView> {
    let size = meta.size as i64;
    let new_type = crate::store::opt_view(meta.content_type);
    let added_type: Seq<ChangeView> = match new_type {
        Some(ct) => seq![ChangeView::TypeAdded(ct, size)],
        None => Seq::empty(),
    };
    match old {
        None => {
            let by_prefix = match key_prefix(meta.key@) {
                Some(p) => seq![ChangeView::PrefixAdded(p, size)],
                None => Seq::empty(),
            };
            added_type + seq![ChangeView::DayAdded(today, size)] + by_prefix
        },
        Some((o, old_type, created)) => {
            let by_type = if old_type == new_type {
                match new_type {
                    Some(ct) => seq![ChangeView::TypeResized(ct, o, size)],
                    None => Seq::empty(),
                }
            } else {
                let removed: Seq<ChangeView> = match old_type {
                    Some(ct) => seq![ChangeView::TypeRemoved(ct, o)],
                    None => Seq::empty(),
                };
                removed + added_type
            };
            let by_day = if date_part(created) == today {
                seq![ChangeView::DayResized(today, o, size)]
            } else {
                seq![ChangeView::DayRemoved(date_part(created), o), ChangeView::DayAdded(today, size)]
            };
            let by_prefix = match key_prefix(meta.key@) {
                Some(p) => seq![ChangeView::PrefixResized(p, o, size)],
                None => Seq::empty(),
            };
            by_type + by_day + by_prefix
        },
    }
}

/// Whether two optional texts are equal.
fn same_opt_text(a: &Option<String>, b: &Option<String>) -> (r: bool)
    ensures
        r == (crate::store::opt_view(*a) == crate::store::opt_view(*b)),
{
    match (a, b) {
        (Some(x), Some(y)) => crate::text::str_eq(x.as_str(), y.as_str()),
        (None, None) => true,
        _ => false,
    }
}

/// The statistics changes of a put; see `put_changes`.
pub fn put_stats_changes(meta: &ObjectMeta, old: &Option<(i64, Option<String>, String)>, today: &str) -> (r: Vec<StatsChange>)
    ensures
        change_views(r@) == put_changes(*meta, stored_view(*old), today@),
{
    #[verifier::truncate]
    let size = meta.size as i64;
    let mut r: Vec<StatsChange> = Vec::new();
    match old {
        None => {
            match &meta.content_type {
                Some(ct) => r.push(StatsChange::TypeAdded { content_type: copy_string(ct), size }),
                None => {},
            }
            r.push(StatsChange::DayAdded { date: today.to_owned(), size });
            match extract_prefix(meta.key.as_str()) {
                Some(p) => r.push(StatsChange::PrefixAdded { prefix: p, size }),
                None => {},
            }
        },
        Some((o, old_type, created)) => {
            if same_opt_text(old_type, &meta.content_type) {
                match &meta.content_type {
                    Some(ct) => r.push(StatsChange::TypeResized { content_type: copy_string(ct), old_size: *o, new_size: size }),
                    None => {},
                }
            } else {
                match old_type {
                    Some(ct) => r.push(StatsChange::TypeRemoved { content_type: copy_string(ct), size: *o }),
                    None => {},
                }
                match &meta.content_type {
                    Some(ct) => r.push(StatsChange::TypeAdded { content_type: copy_string(ct), size }),
                    None => {},
                }
            }
            let day = take_date_part(created.as_str());
            if crate::text::str_eq(day.as_str(), today) {
                r.push(StatsChange::DayResized { date: today.to_owned(), old_size: *o, new_size: size });
            } else {
                r.push(StatsChange::DayRemoved { date: day, size: *o });
                r.push(StatsChange::DayAdded { date: today.to_owned(), size });
            }
            match extract_prefix(meta.key.as_str()) {
                Some(p) => r.push(StatsChange::PrefixResized { prefix: p, old_size: *o, new_size: size }),
                None => {},
            }
        },
    }
    assert(change_views(r@) =~= put_changes(*meta, stored_view(*old), today@));
    r
}

/// The text before the first 'T' of `s` (the date of an RFC 3339 time),
/// or all of it.
pub open spec fn date_part(s: Seq<char>) -> Seq<char>
    decreases s.len(),
{
    if s.len() == 0 {
        s
    } else if s[0] == 'T' {
        Seq::empty()
    } else {
        seq![s[0]] + date_part(s.drop_first())
    }
}

/// The text before the first 'T' of `s`, or all of it.
fn take_date_part(s: &str) -> (r: String)
    ensures
        r@ == date_part(s@),
{
    let n = s.unicode_len();
    let mut i: usize = 0;
    assert(s@.skip(0) =~= s@);
    assert(s@.take(0) =~= Seq::<char>::empty());
    assert(Seq::<char>::empty() + date_part(s@) =~= date_part(s@));
    while i < n && s.get_char(i) != 'T'
        invariant
            n == s@.len(),
            i <= n,
            date_part(s@) == s@.take(i as int) + date_part(s@.skip(i as int)),
        decreases n - i,
    {
        assert(s@.skip(i as int).drop_first() =~= s@.skip(i + 1));
        assert(s@.take(i + 1) =~= s@.take(i as int) + seq![s@[i as int]]);
        i = i + 1;
    }
    assert(date_part(s@.skip(i as int)) =~= Seq::<char>::empty()) by {
        if i < n {
            assert(s@.skip(i as int)[0] == s@[i as int]);
        } else {
            assert(s@.skip(i as int) =~= Seq::<char>::empty());
        }
    }
    assert(s@.take(i as int) + Seq::<char>::empty() =~= s@.take(i as int));
    s.substring_char(0, i).to_owned()
}

/// The changes a delete of `key` makes, `old` being the size, content type
/// and creation time stored under it (none when nothing was): its content
/// type's row, the row of the day it was created, and its prefix's row,
/// each losing it.
pub open spec fn delete_changes(key: Seq<char>, old: Option<(i64, Option<Seq<char>>, Seq<char>)>) -> Seq<ChangeView> {
    match old {
        None => Seq::empty(),
        Some((size, ct, created)) => {
            let by_type = match ct {
                Some(c) => seq![ChangeView::TypeRemoved(c, size)],
                None => Seq::empty(),
            };
            let by_prefix = match key_prefix(key) {
                Some(p) => seq![ChangeView::PrefixRemoved(p, size)],
                None => Seq::empty(),
            };
            by_type + seq![ChangeView::DayRemoved(date_part(created), size)] + by_prefix
        },
    }
}

/// The view of what a delete found stored.
pub open spec fn stored_view(old: Option<(i64, Option<String>, String)>) -> Option<(i64, Option<Seq<char>>, Seq<char>)> {
    match old {
        Some((size, ct, created)) => Some((size, crate::store::opt_view(ct), created@)),
        None => None,
    }
}

/// The statistics changes of a delete; see `delete_changes`.
pub fn delete_stats_changes(key: &str, old: &Option<(i64, Option<String>, String)>) -> (r: Vec<StatsChange>)
    ensures
        change_views(r@) == delete_changes(key@, stored_view(*old)),
{
    let mut r: Vec<StatsChange> = Vec::new();
    match old {
        None => {
            assert(change_views(r@) =~= Seq::<ChangeView>::empty());
        },
        Some((size, ct, created)) => {
            match ct {
                Some(c) => r.push(StatsChange::TypeRemoved { content_type: copy_string(c), size: *size }),
                None => {},
            }
            r.push(StatsChange::DayRemoved { date: take_date_part(created.as_str()), size: *size });
            match extract_prefix(key) {
                Some(p) => r.push(StatsChange::PrefixRemoved { prefix: p, size: *size }),
                None => {},
            }
            assert(change_views(r@) =~= delete_changes(key@, stored_view(*old)));
        },
    }
    r
}

/// A statistics table.
pub enum StatsTable {
    ByType,
    ByDay,
    ByPrefix,
}

/// The row of one table a change applies to, if any.
pub open spec fn change_row(c: ChangeView) -> (StatsTable, Seq<char>) {
    match c {
        ChangeView::TypeResized(n, _, _) => (StatsTable::ByType, n),
        ChangeView::TypeAdded(n, _) => (StatsTable::ByType, n),
        ChangeView::TypeRemoved(n, _) => (StatsTable::ByType, n),
        ChangeView::DayResized(n, _, _) => (StatsTable::ByDay, n),
        ChangeView::DayAdded(n, _) => (StatsTable::ByDay, n),
        ChangeView::DayRemoved(n, _) => (StatsTable::ByDay, n),
        ChangeView::PrefixResized(n, _, _) => (StatsTable::ByPrefix, n),
        ChangeView::PrefixAdded(n, _) => (StatsTable::ByPrefix, n),
        ChangeView::PrefixRemoved(n, _) => (StatsTable::ByPrefix, n),
    }
}

/// The object count and total size of `row` after the change `c`, as the
/// SQL of each change updates them: a resize moves the total by the new
/// size less the old one, an addition counts one more object and adds its
/// size, a removal counts one less and takes its size away.
pub open spec fn change_effect(v: (int, int), c: ChangeView, row: (StatsTable, Seq<char>)) -> (int, int) {
    if change_row(c) != row {
        v
    } else {
        match c {
            ChangeView::TypeResized(_, o, n) | ChangeView::DayResized(_, o, n) | ChangeView::PrefixResized(_, o, n) => (v.0, v.1 - o + n),
            ChangeView::TypeAdded(_, n) | ChangeView::DayAdded(_, n) | ChangeView::PrefixAdded(_, n) => (v.0 + 1, v.1 + n),
            ChangeView::TypeRemoved(_, n) | ChangeView::DayRemoved(_, n) | ChangeView::PrefixRemoved(_, n) => (v.0 - 1, v.1 - n),
        }
    }
}

/// The count and total of `row` after the changes `cs`, in order.
pub open spec fn effect_all(v: (int, int), cs: Seq<ChangeView>, row: (StatsTable, Seq<char>)) -> (int, int)
    decreases cs.len(),
{
    if cs.len() == 0 {
        v
    } else {
        change_effect(effect_all(v, cs.drop_last(), row), cs.last(), row)
    }
}

proof fn lemma_effect_concat(v: (int, int), a: Seq<ChangeView>, b: Seq<ChangeView>, row: (StatsTable, Seq<char>))
    ensures
        effect_all(v, a + b, row) == effect_all(effect_all(v, a, row), b, row),
    decreases b.len(),
{
    if b.len() == 0 {
        assert(a + b =~= a);
    } else {
        assert((a + b).drop_last() =~= a + b.drop_last());
        lemma_effect_concat(v, a, b.drop_last(), row);
    }
}

/// 1 when the object counts in `row`, else 0: an object counts in the row of
/// its content type, of the day it was created, and of its key's prefix.
pub open spec fn in_row(row: (StatsTable, Seq<char>), content_type: Option<Seq<char>>, day: Seq<char>, key: Seq<char>) -> int {
    match row.0 {
        StatsTable::ByType => if content_type == Some(row.1) { 1 } else { 0 },
        StatsTable::ByDay => if day == row.1 { 1 } else { 0 },
        StatsTable::ByPrefix => if key_prefix(key) == Some(row.1) { 1 } else { 0 },
    }
}

/// A put keeps every statistics row equal to the objects stored in it: the
/// object stored before under the key (if any) leaves the rows it counted
/// in, and the new object, created today, joins its rows. A row that both
/// objects count in keeps its count and moves its total by the new size
/// less the old one.
pub proof fn law_put_keeps_rows_exact(
    meta: ObjectMeta,
    old: Option<(i64, Option<Seq<char>>, Seq<char>)>,
    today: Seq<char>,
    v: (int, int),
    row: (StatsTable, Seq<char>),
)
    ensures
        ({
            let size = (meta.size as i64) as int;
            let new_in = in_row(row, crate::store::opt_view(meta.content_type), today, meta.key@);
            let after = effect_all(v, put_changes(meta, old, today), row);
            match old {
                None => after == (v.0 + new_in, v.1 + size * new_in),
                Some((o, ct, created)) => {
                    let old_in = in_row(row, ct, date_part(created), meta.key@);
                    after == (v.0 - old_in + new_in, v.1 - (o as int) * old_in + size * new_in)
                },
            }
        }),
{
    let size = meta.size as i64;
    let nt = crate::store::opt_view(meta.content_type);
    let added_type: Seq<ChangeView> = match nt {
        Some(ct) => seq![ChangeView::TypeAdded(ct, size)],
        None => Seq::empty(),
    };
    reveal_with_fuel(effect_all, 3);
    match old {
        None => {
            let by_prefix: Seq<ChangeView> = match key_prefix(meta.key@) {
                Some(p) => seq![ChangeView::PrefixAdded(p, size)],
                None => Seq::empty(),
            };
            let day: Seq<ChangeView> = seq![ChangeView::DayAdded(today, size)];
            lemma_effect_concat(v, added_type + day, by_prefix, row);
            lemma_effect_concat(v, added_type, day, row);
        },
        Some((o, old_type, created)) => {
            let by_type: Seq<ChangeView> = if old_type == nt {
                match nt {
                    Some(ct) => seq![ChangeView::TypeResized(ct, o, size)],
                    None => Seq::empty(),
                }
            } else {
                let removed: Seq<ChangeView> = match old_type {
                    Some(ct) => seq![ChangeView::TypeRemoved(ct, o)],
                    None => Seq::empty(),
                };
                lemma_effect_concat(v, removed, added_type, row);
                removed + added_type
            };
            let by_day: Seq<ChangeView> = if date_part(created) == today {
                seq![ChangeView::DayResized(today, o, size)]
            } else {
                seq![ChangeView::DayRemoved(date_part(created), o), ChangeView::DayAdded(today, size)]
            };
            let by_prefix: Seq<ChangeView> = match key_prefix(meta.key@) {
                Some(p) => seq![ChangeView::PrefixResized(p, o, size)],
                None => Seq::empty(),
            };
            assert(put_changes(meta, old, today) == by_type + by_day + by_prefix);
            lemma_effect_concat(v, by_type + by_day, by_prefix, row);
            lemma_effect_concat(v, by_type, by_day, row);
        },
    }
}

/// A delete takes the object stored under the key out of every statistics
/// row it counted in.
pub proof fn law_delete_keeps_rows_exact(
    key: Seq<char>,
    old: Option<(i64, Option<Seq<char>>, Seq<char>)>,
    v: (int, int),
    row: (StatsTable, Seq<char>),
)
    ensures
        ({
            let after = effect_all(v, delete_changes(key, old), row);
            match old {
                None => after == v,
                Some((o, ct, created)) => {
                    let old_in = in_row(row, ct, date_part(created), key);
                    after == (v.0 - old_in, v.1 - (o as int) * old_in)
                },
            }
        }),
{
    reveal_with_fuel(effect_all, 3);
    match old {
        None => {},
        Some((size, ct, created)) => {
            let by_type: Seq<ChangeView> = match ct {
                Some(c) => seq![ChangeView::TypeRemoved(c, size)],
                None => Seq::empty(),
            };
            let by_prefix: Seq<ChangeView> = match key_prefix(key) {
                Some(p) => seq![ChangeView::PrefixRemoved(p, size)],
                None => Seq::empty(),
            };
            let day: Seq<ChangeView> = seq![ChangeView::DayRemoved(date_part(created), size)];
            lemma_effect_concat(v, by_type + day, by_prefix, row);
            lemma_effect_concat(v, by_type, day, row);
        },
    }
}

/// The statement of a query by size range and the values bound to it:
/// objects at least `min_size` and at most `max_size` (each bound only
/// when given), largest first, at most `limit` of them. Values are taken as
/// `i64`, as SQLite binds them.
pub fn size_range_query(min_size: Option<u64>, max_size: Option<u64>, limit: usize) -> (r: (&'static str, Vec<i64>))
    ensures
        match (min_size, max_size) {
            (Some(lo), Some(hi)) => r.0@ == "SELECT key, size, created_at, updated_at, content_type, tags, checksum, storage_node\n                 FROM object_meta WHERE size >= ?1 AND size <= ?2\n                 ORDER BY size DESC LIMIT ?3"@
                && r.1@ == seq![lo as i64, hi as i64, limit as i64],
            (Some(lo), None) => r.0@ == "SELECT key, size, created_at, updated_at, content_type, tags, checksum, storage_node\n                 FROM object_meta WHERE size >= ?1\n                 ORDER BY size DESC LIMIT ?2"@
                && r.1@ == seq![lo as i64, limit as i64],
            (None, Some(hi)) => r.0@ == "SELECT key, size, created_at, updated_at, content_type, tags, checksum, storage_node\n                 FROM object_meta WHERE size <= ?1\n                 ORDER BY size DESC LIMIT ?2"@
                && r.1@ == seq![hi as i64, limit as i64],
            (None, None) => r.0@ == "SELECT key, size, created_at, updated_at, content_type, tags, checksum, storage_node\n                 FROM object_meta ORDER BY size DESC LIMIT ?1"@
                && r.1@ == seq![limit as i64],
        },
{
    #[verifier::truncate]
    let lim = limit as i64;
    match (min_size, max_size) {
        (Some(lo), Some(hi)) => {
            #[verifier::truncate]
            let a = lo as i64;
            #[verifier::truncate]
            let b = hi as i64;
            ("SELECT key, size, created_at, updated_at, content_type, tags, checksum, storage_node\n                 FROM object_meta WHERE size >= ?1 AND size <= ?2\n                 ORDER BY size DESC LIMIT ?3", vec![a, b, lim])
        },
        (Some(lo), None) => {
            #[verifier::truncate]
            let a = lo as i64;
            ("SELECT key, size, created_at, updated_at, content_type, tags, checksum, storage_node\n                 FROM object_meta WHERE size >= ?1\n                 ORDER BY size DESC LIMIT ?2", vec![a, lim])
        },
        (None, Some(hi)) => {
            #[verifier::truncate]
            let b = hi as i64;
            ("SELECT key, size, created_at, updated_at, content_type, tags, checksum, storage_node\n                 FROM object_meta WHERE size <= ?1\n                 ORDER BY size DESC LIMIT ?2", vec![b, lim])
        },
        (None, None) => {
            ("SELECT key, size, created_at, updated_at, content_type, tags, checksum, storage_node\n                 FROM object_meta ORDER BY size DESC LIMIT ?1", vec![lim])
        },
    }
}

} // verus!
