//! The clipboard history state engine: a capped, de-duplicated, pin-aware
//! collection of clipboard entries together with the application
//! configuration.
//!
//! Entries are held newest-first: identifiers grow monotonically and the
//! vector is strictly decreasing in `id`, so the position of an entry is its
//! recency. The engine owns the authoritative state; a durable mirror (any
//! keyed store) lives outside the crate and replays these operations.

use vstd::prelude::*;

use crate::types::{str_eq, AppConfig, ClipboardItem, EntryKind, StorageError};

verus! {

/// Two entries collide for deduplication when content and kind agree.
pub open spec fn same_key(a: ClipboardItem, b: ClipboardItem) -> bool {
    a.content@ == b.content@ && a.kind == b.kind
}

/// Entry identifiers strictly decrease along the sequence (newest first).
pub open spec fn ids_decreasing(s: Seq<ClipboardItem>) -> bool {
    forall|i: int, j: int| 0 <= i < j < s.len() ==> s[i].id > s[j].id
}

/// At most one entry per `(content, kind)` pair.
pub open spec fn no_duplicate_keys(s: Seq<ClipboardItem>) -> bool {
    forall|i: int, j: int| 0 <= i < j < s.len() ==> !same_key(s[i], s[j])
}

/// Every identifier is positive and below `bound`.
pub open spec fn ids_below(s: Seq<ClipboardItem>, bound: int) -> bool {
    forall|i: int| 0 <= i < s.len() ==> 0 < #[trigger] s[i].id < bound
}

/// How many entries of the sequence are unpinned.
pub open spec fn unpinned_count(s: Seq<ClipboardItem>) -> int {
    s.filter(|e: ClipboardItem| !e.pinned).len() as int
}

/// Retention: walking newest-first, every pinned entry is kept and only the
/// `cap` most recent unpinned entries are kept.
pub open spec fn retained(s: Seq<ClipboardItem>, cap: int) -> Seq<ClipboardItem>
    decreases s.len(),
{
    if s.len() == 0 {
        Seq::empty()
    } else if s.first().pinned {
        seq![s.first()] + retained(s.drop_first(), cap)
    } else if cap > 0 {
        seq![s.first()] + retained(s.drop_first(), cap - 1)
    } else {
        retained(s.drop_first(), cap)
    }
}

/// The sequence with every entry of the given `(content, kind)` key removed.
pub open spec fn without_key(s: Seq<ClipboardItem>, content: Seq<char>, kind: EntryKind) -> Seq<
    ClipboardItem,
> {
    s.filter(|e: ClipboardItem| !(e.content@ == content && e.kind == kind))
}

/// The state of the history after inserting `e` newest: any prior entry with
/// `e`'s key goes away, `e` arrives in front, and retention is enforced.
pub open spec fn inserted(s: Seq<ClipboardItem>, e: ClipboardItem, cap: int) -> Seq<ClipboardItem> {
    retained(seq![e] + without_key(s, e.content@, e.kind), cap)
}

/// The pinned entries, in order.
pub open spec fn pinned_sel(s: Seq<ClipboardItem>) -> Seq<ClipboardItem> {
    s.filter(|e: ClipboardItem| e.pinned)
}

/// The unpinned entries, in order.
pub open spec fn unpinned_sel(s: Seq<ClipboardItem>) -> Seq<ClipboardItem> {
    s.filter(|e: ClipboardItem| !e.pinned)
}

/// The sequence with every entry of the given id removed.
pub open spec fn without_id(s: Seq<ClipboardItem>, id: i64) -> Seq<ClipboardItem> {
    s.filter(|e: ClipboardItem| e.id != id)
}

/// The same entry with its pinned flag flipped.
pub open spec fn with_pin_flipped(e: ClipboardItem) -> ClipboardItem {
    ClipboardItem {
        id: e.id,
        content: e.content,
        kind: e.kind,
        timestamp: e.timestamp,
        pinned: !e.pinned,
    }
}

/// Read order: pinned entries first, then unpinned, each group newest-first.
pub open spec fn ordered_view(s: Seq<ClipboardItem>) -> Seq<ClipboardItem> {
    pinned_sel(s) + unpinned_sel(s)
}

/// The read order truncated to at most `limit` entries.
pub open spec fn listed(s: Seq<ClipboardItem>, limit: int) -> Seq<ClipboardItem> {
    let v = ordered_view(s);
    if limit < v.len() {
        v.take(limit)
    } else {
        v
    }
}

// ---------------------------------------------------------------------------
// Facts about `filter`-built subsequences.
// ---------------------------------------------------------------------------
/// Every element of a filtered sequence is an element of the original and
/// satisfies the predicate.
proof fn lemma_filter_sub(s: Seq<ClipboardItem>, pred: spec_fn(ClipboardItem) -> bool)
    ensures
        forall|x: ClipboardItem| #[trigger] s.filter(pred).contains(x) ==> s.contains(x) && pred(x),
    decreases s.len(),
{
    reveal(Seq::filter);
    if s.len() != 0 {
        let pre = s.drop_last();
        lemma_filter_sub(pre, pred);
        assert forall|x: ClipboardItem| #[trigger] s.filter(pred).contains(x) implies s.contains(x)
            && pred(x) by {
            let f = s.filter(pred);
            let i = choose|i: int| 0 <= i < f.len() && f[i] == x;
            if pred(s.last()) && i == f.len() - 1 {
                assert(x == s.last());
                assert(s[s.len() - 1] == x);
            } else {
                assert(pre.filter(pred)[i] == x);
                assert(pre.filter(pred).contains(x));
                let j = choose|j: int| 0 <= j < pre.len() && pre[j] == x;
                assert(s[j] == x);
            }
        }
    }
}

/// Filtering keeps the newest-first identifier order.
proof fn lemma_filter_ids_decreasing(s: Seq<ClipboardItem>, pred: spec_fn(ClipboardItem) -> bool)
    requires
        ids_decreasing(s),
    ensures
        ids_decreasing(s.filter(pred)),
    decreases s.len(),
{
    reveal(Seq::filter);
    if s.len() != 0 {
        let pre = s.drop_last();
        assert(ids_decreasing(pre));
        lemma_filter_ids_decreasing(pre, pred);
        lemma_filter_sub(pre, pred);
        let f = s.filter(pred);
        assert forall|i: int, j: int| 0 <= i < j < f.len() implies f[i].id > f[j].id by {
            if pred(s.last()) && j == f.len() - 1 {
                assert(f[j] == s.last());
                assert(pre.filter(pred)[i] == f[i]);
                assert(pre.filter(pred).contains(f[i]));
                assert(pre.contains(f[i]));
                let k = choose|k: int| 0 <= k < pre.len() && pre[k] == f[i];
                assert(s[k] == f[i]);
                assert(s[k].id > s[s.len() - 1].id);
            } else {
                assert(f[i] == pre.filter(pred)[i]);
                assert(f[j] == pre.filter(pred)[j]);
            }
        }
    }
}

/// A filter that keeps everything returns the sequence unchanged.
proof fn lemma_filter_all(s: Seq<ClipboardItem>, pred: spec_fn(ClipboardItem) -> bool)
    requires
        forall|i: int| 0 <= i < s.len() ==> pred(#[trigger] s[i]),
    ensures
        s.filter(pred) == s,
    decreases s.len(),
{
    reveal(Seq::filter);
    if s.len() != 0 {
        let pre = s.drop_last();
        lemma_filter_all(pre, pred);
        assert(pred(s.last()));
        assert(s.filter(pred) =~= s);
    } else {
        assert(s.filter(pred) =~= s);
    }
}

// ---------------------------------------------------------------------------
// Facts that carry well-formedness through any subsequence.
// ---------------------------------------------------------------------------
/// Key uniqueness carries from a sequence to any id-ordered selection of it.
proof fn lemma_no_dup_sub(sub: Seq<ClipboardItem>, sup: Seq<ClipboardItem>)
    requires
        ids_decreasing(sub),
        no_duplicate_keys(sup),
        forall|x: ClipboardItem| #[trigger] sub.contains(x) ==> sup.contains(x),
    ensures
        no_duplicate_keys(sub),
{
    assert forall|i: int, j: int| 0 <= i < j < sub.len() implies !same_key(sub[i], sub[j]) by {
        assert(sub[i].id > sub[j].id);
        assert(sub.contains(sub[i]));
        assert(sub.contains(sub[j]));
        let a = choose|a: int| 0 <= a < sup.len() && sup[a] == sub[i];
        let b = choose|b: int| 0 <= b < sup.len() && sup[b] == sub[j];
        if same_key(sub[i], sub[j]) {
            if a < b {
                assert(!same_key(sup[a], sup[b]));
            } else {
                assert(!same_key(sup[b], sup[a]));
            }
        }
    }
}

/// Identifier bounds carry from a sequence to any selection of it.
proof fn lemma_ids_below_sub(sub: Seq<ClipboardItem>, sup: Seq<ClipboardItem>, bound: int)
    requires
        ids_below(sup, bound),
        forall|x: ClipboardItem| #[trigger] sub.contains(x) ==> sup.contains(x),
    ensures
        ids_below(sub, bound),
{
    assert forall|i: int| 0 <= i < sub.len() implies 0 < #[trigger] sub[i].id < bound by {
        assert(sub.contains(sub[i]));
        let a = choose|a: int| 0 <= a < sup.len() && sup[a] == sub[i];
    }
}

// ---------------------------------------------------------------------------
// Facts about retention.
// ---------------------------------------------------------------------------
/// Every retained entry comes from the original sequence.
proof fn lemma_retained_sub(s: Seq<ClipboardItem>, cap: int)
    ensures
        forall|x: ClipboardItem| #[trigger] retained(s, cap).contains(x) ==> s.contains(x),
    decreases s.len(),
{
    if s.len() != 0 {
        let t = s.drop_first();
        lemma_retained_sub(t, cap);
        lemma_retained_sub(t, cap - 1);
        assert forall|x: ClipboardItem| #[trigger] retained(s, cap).contains(x) implies s.contains(
            x,
        ) by {
            let r = retained(s, cap);
            if s.first().pinned || cap > 0 {
                let rr = if s.first().pinned {
                    retained(t, cap)
                } else {
                    retained(t, cap - 1)
                };
                assert(r == seq![s.first()] + rr);
                let i = choose|i: int| 0 <= i < r.len() && r[i] == x;
                if i == 0 {
                    assert(s[0] == x);
                } else {
                    assert(rr[i - 1] == x);
                    assert(rr.contains(x));
                    assert(t.contains(x));
                    let k = choose|k: int| 0 <= k < t.len() && t[k] == x;
                    assert(s[k + 1] == x);
                }
            } else {
                assert(retained(t, cap).contains(x));
                assert(t.contains(x));
                let k = choose|k: int| 0 <= k < t.len() && t[k] == x;
                assert(s[k + 1] == x);
            }
        }
    }
}

/// Retention keeps the newest-first identifier order.
proof fn lemma_retained_ids_decreasing(s: Seq<ClipboardItem>, cap: int)
    requires
        ids_decreasing(s),
    ensures
        ids_decreasing(retained(s, cap)),
    decreases s.len(),
{
    if s.len() != 0 {
        let t = s.drop_first();
        assert(ids_decreasing(t));
        lemma_retained_ids_decreasing(t, cap);
        lemma_retained_ids_decreasing(t, cap - 1);
        lemma_retained_sub(t, cap);
        lemma_retained_sub(t, cap - 1);
        let r = retained(s, cap);
        if s.first().pinned || cap > 0 {
            let rr = if s.first().pinned {
                retained(t, cap)
            } else {
                retained(t, cap - 1)
            };
            assert(r == seq![s.first()] + rr);
            assert forall|i: int, j: int| 0 <= i < j < r.len() implies r[i].id > r[j].id by {
                if i == 0 {
                    assert(r[j] == rr[j - 1]);
                    assert(rr.contains(rr[j - 1]));
                    assert(t.contains(rr[j - 1]));
                    let k = choose|k: int| 0 <= k < t.len() && t[k] == rr[j - 1];
                    assert(s[k + 1] == rr[j - 1]);
                    assert(s[0].id > s[k + 1].id);
                } else {
                    assert(r[i] == rr[i - 1]);
                    assert(r[j] == rr[j - 1]);
                }
            }
        }
    }
}

/// Retention never drops a pinned entry.
proof fn lemma_retained_keeps_pinned(s: Seq<ClipboardItem>, cap: int)
    ensures
        forall|x: ClipboardItem|
            s.contains(x) && x.pinned ==> #[trigger] retained(s, cap).contains(x),
    decreases s.len(),
{
    if s.len() != 0 {
        let t = s.drop_first();
        lemma_retained_keeps_pinned(t, cap);
        lemma_retained_keeps_pinned(t, cap - 1);
        assert forall|x: ClipboardItem| s.contains(x) && x.pinned implies #[trigger] retained(
            s,
            cap,
        ).contains(x) by {
            let r = retained(s, cap);
            let i = choose|i: int| 0 <= i < s.len() && s[i] == x;
            if s.first().pinned || cap > 0 {
                let rr = if s.first().pinned {
                    retained(t, cap)
                } else {
                    retained(t, cap - 1)
                };
                assert(r == seq![s.first()] + rr);
                if i == 0 {
                    assert(r[0] == x);
                } else {
                    assert(t[i - 1] == x);
                    assert(t.contains(x));
                    assert(rr.contains(x));
                    let k = choose|k: int| 0 <= k < rr.len() && rr[k] == x;
                    assert(r[k + 1] == x);
                }
            } else {
                assert(i != 0);
                assert(t[i - 1] == x);
                assert(t.contains(x));
                assert(retained(t, cap).contains(x));
            }
        }
    }
}

/// Prepending one entry adds its own pinned state to the unpinned count.
proof fn lemma_unpinned_count_cons(e: ClipboardItem, rest: Seq<ClipboardItem>)
    ensures
        unpinned_count(seq![e] + rest) == (if e.pinned {
            0int
        } else {
            1int
        }) + unpinned_count(rest),
{
    let pred = |x: ClipboardItem| !x.pinned;
    Seq::<ClipboardItem>::filter_distributes_over_add(seq![e], rest, pred);
    reveal_with_fuel(Seq::filter, 2);
    assert(seq![e].drop_last() =~= Seq::<ClipboardItem>::empty());
    assert(seq![e].filter(pred).len() == (if e.pinned {
        0int
    } else {
        1int
    }));
}

/// Retention bounds the number of unpinned entries by the cap.
proof fn lemma_retained_cap(s: Seq<ClipboardItem>, cap: int)
    requires
        cap >= 0,
    ensures
        unpinned_count(retained(s, cap)) <= cap,
    decreases s.len(),
{
    reveal_with_fuel(Seq::filter, 2);
    if s.len() == 0 {
        assert(unpinned_count(retained(s, cap)) == 0);
    } else {
        let t = s.drop_first();
        if s.first().pinned {
            lemma_retained_cap(t, cap);
            lemma_unpinned_count_cons(s.first(), retained(t, cap));
        } else if cap > 0 {
            lemma_retained_cap(t, cap - 1);
            lemma_unpinned_count_cons(s.first(), retained(t, cap - 1));
        } else {
            lemma_retained_cap(t, cap);
        }
    }
}

// ---------------------------------------------------------------------------
// Laws of the history store.
// ---------------------------------------------------------------------------
/// Law: an insert deduplicates. Under the store's invariant, the history
/// after inserting `e` holds at most one entry per `(content, kind)` key,
/// the only entry with `e`'s key is `e` itself — unpinned, whatever the
/// pinned state of a prior occurrence was — and whenever the cap admits an
/// unpinned entry at all, `e` sits in front, as the most recent entry.
pub proof fn lemma_insert_dedup(s: Seq<ClipboardItem>, e: ClipboardItem, cap: int)
    requires
        ids_decreasing(s),
        no_duplicate_keys(s),
        ids_below(s, e.id as int),
        e.id > 0,
        !e.pinned,
    ensures
        no_duplicate_keys(inserted(s, e, cap)),
        ids_decreasing(inserted(s, e, cap)),
        forall|x: ClipboardItem|
            #[trigger] inserted(s, e, cap).contains(x) && same_key(x, e) ==> x == e,
        cap > 0 ==> inserted(s, e, cap).len() > 0 && inserted(s, e, cap)[0] == e,
{
    let pred = |x: ClipboardItem| !(x.content@ == e.content@ && x.kind == e.kind);
    let stripped = without_key(s, e.content@, e.kind);
    let mid = seq![e] + stripped;
    lemma_filter_sub(s, pred);
    lemma_filter_ids_decreasing(s, pred);
    lemma_no_dup_sub(stripped, s);
    lemma_ids_below_sub(stripped, s, e.id as int);
    assert forall|a: int, b: int| 0 <= a < b < mid.len() implies mid[a].id > mid[b].id by {
        if a == 0 {
            assert(mid[b] == stripped[b - 1]);
            assert(stripped.contains(stripped[b - 1]));
        }
    }
    assert forall|a: int, b: int| 0 <= a < b < mid.len() implies !same_key(mid[a], mid[b]) by {
        if a == 0 {
            assert(mid[b] == stripped[b - 1]);
            assert(stripped.contains(stripped[b - 1]));
            assert(pred(stripped[b - 1]));
        }
    }
    lemma_retained_ids_decreasing(mid, cap);
    lemma_retained_sub(mid, cap);
    lemma_no_dup_sub(retained(mid, cap), mid);
    assert forall|x: ClipboardItem|
        #[trigger] inserted(s, e, cap).contains(x) && same_key(x, e) implies x == e by {
        assert(mid.contains(x));
        let k = choose|k: int| 0 <= k < mid.len() && mid[k] == x;
        if k != 0 {
            assert(stripped[k - 1] == x);
            assert(stripped.contains(x));
            assert(pred(x));
        }
    }
    if cap > 0 {
        assert(mid.first() == e);
        assert(retained(mid, cap) == seq![e] + retained(mid.drop_first(), cap - 1));
    }
}

/// Law: retention. After inserting under any cap `c >= 0`, at most `c`
/// unpinned entries remain in the store, whatever was stored before.
pub proof fn lemma_insert_retention(s: Seq<ClipboardItem>, e: ClipboardItem, cap: int)
    requires
        cap >= 0,
    ensures
        unpinned_count(inserted(s, e, cap)) <= cap,
{
    lemma_retained_cap(seq![e] + without_key(s, e.content@, e.kind), cap);
}

/// Law: pinned entries are retained unconditionally. Retention under any
/// cap — including one below the current unpinned count — keeps every
/// pinned entry, and an insert keeps every pinned entry whose key differs
/// from the inserted one.
pub proof fn lemma_pinned_survive(s: Seq<ClipboardItem>, e: ClipboardItem, cap: int)
    ensures
        forall|x: ClipboardItem|
            s.contains(x) && x.pinned ==> #[trigger] retained(s, cap).contains(x),
        forall|x: ClipboardItem|
            s.contains(x) && x.pinned && !same_key(x, e) ==> #[trigger] inserted(
                s,
                e,
                cap,
            ).contains(x),
{
    lemma_retained_keeps_pinned(s, cap);
    let pred = |x: ClipboardItem| !(x.content@ == e.content@ && x.kind == e.kind);
    let stripped = without_key(s, e.content@, e.kind);
    let mid = seq![e] + stripped;
    lemma_retained_keeps_pinned(mid, cap);
    assert forall|x: ClipboardItem|
        s.contains(x) && x.pinned && !same_key(x, e) implies #[trigger] inserted(
        s,
        e,
        cap,
    ).contains(x) by {
        let k = choose|k: int| 0 <= k < s.len() && s[k] == x;
        s.lemma_filter_contains(pred, k);
        let j = choose|j: int| 0 <= j < stripped.len() && stripped[j] == x;
        assert(mid[j + 1] == x);
        assert(mid.contains(x));
    }
}

/// Law: configuration round-trip. Writing a configuration and then reading
/// it back yields exactly the configuration that was written: the write
/// ends with the store holding `cfg`, and the read returns the stored
/// configuration.
pub proof fn lemma_config_round_trip(updated: DatabaseManager, cfg: AppConfig, got: AppConfig)
    requires
        updated.config == cfg,
        got == updated.config,
    ensures
        got == cfg,
{
}

/// One insertion observed from outside: the id counter advances, the
/// configuration stays, and the history is the old one with a fresh unpinned
/// entry for `(content, kind)` in front, deduplicated and capped. The
/// timestamp of the fresh entry is whatever the clock returned.
pub open spec fn insert_step(
    pre: DatabaseManager,
    content: Seq<char>,
    kind: EntryKind,
    post: DatabaseManager,
) -> bool {
    &&& post.next_id == pre.next_id + 1
    &&& post.config == pre.config
    &&& exists|e: ClipboardItem|
        {
            &&& e.id == pre.next_id
            &&& e.content@ == content
            &&& e.kind == kind
            &&& !e.pinned
            &&& post.entries@ == #[trigger] inserted(pre.entries@, e, pre.cap())
        }
}

/// Relies on chrono's `Utc::now` and `DateTime::to_rfc3339` for the creation
/// timestamp. The wall clock is environment-dependent, so nothing is assumed
/// about the returned text.
#[verifier::external_body]
fn now_rfc3339() -> String {
    chrono::Utc::now().to_rfc3339()
}

/// The owner of the durable state: history entries plus configuration.
pub struct DatabaseManager {
    pub entries: Vec<ClipboardItem>,
    pub next_id: i64,
    pub config: AppConfig,
}

impl DatabaseManager {
    /// Structural invariant of the engine: entries are newest-first with
    /// strictly decreasing positive identifiers below the id counter, and
    /// no two entries share a `(content, kind)` key.
    pub open spec fn wf(self) -> bool {
        &&& ids_decreasing(self.entries@)
        &&& no_duplicate_keys(self.entries@)
        &&& ids_below(self.entries@, self.next_id as int)
        &&& self.next_id >= 1
    }

    /// The retention cap currently configured.
    pub open spec fn cap(self) -> int {
        self.config.max_history_count as int
    }

    /// A fresh engine: empty history, first-run configuration.
    pub fn new() -> (s: DatabaseManager)
        ensures
            s.wf(),
            s.entries@.len() == 0,
            s.next_id == 1,
            s.config.max_history_count == crate::types::DEFAULT_MAX_HISTORY_COUNT,
            s.config.hotkey@ == crate::types::spec_default_hotkey(),
            s.config.theme.preset == crate::types::ThemePreset::Default,
    {
        DatabaseManager { entries: Vec::new(), next_id: 1, config: AppConfig::bootstrap() }
    }

    /// The current configuration, always available.
    pub fn get_config(&self) -> (r: Result<AppConfig, StorageError>)
        ensures
            r matches Ok(c) && c == self.config,
    {
        Ok(self.config.duplicate())
    }

    /// The configured hotkey.
    pub fn get_hotkey(&self) -> (r: Result<String, StorageError>)
        ensures
            r matches Ok(h) && h == self.config.hotkey,
    {
        Ok(self.config.hotkey.clone())
    }

    /// The configured cap on unpinned history entries.
    pub fn get_max_history_count(&self) -> (r: Result<u32, StorageError>)
        ensures
            r matches Ok(c) && c == self.config.max_history_count,
    {
        Ok(self.config.max_history_count)
    }

    /// The configured theme.
    pub fn get_theme(&self) -> (r: Result<crate::types::ThemeConfig, StorageError>)
        ensures
            r matches Ok(t) && t == self.config.theme,
    {
        Ok(self.config.theme)
    }

    /// Deletes the oldest unpinned entries beyond `cap`; pinned entries are
    /// untouched. Invoked after every insert and whenever the cap shrinks.
    pub fn enforce_retention(&mut self, cap: u32) -> (r: Result<(), StorageError>)
        requires
            old(self).wf(),
        ensures
            final(self).wf(),
            r is Ok,
            final(self).entries@ == retained(old(self).entries@, cap as int),
            final(self).next_id == old(self).next_id,
            final(self).config == old(self).config,
            unpinned_count(final(self).entries@) <= cap as int,
            forall|x: ClipboardItem|
                old(self).entries@.contains(x) && x.pinned ==> final(self).entries@.contains(x),
    {
        let ghost s0 = self.entries@;
        let mut kept: Vec<ClipboardItem> = Vec::new();
        let mut kept_unpinned: u32 = 0;
        let n = self.entries.len();
        let mut i: usize = 0;
        proof {
            assert(s0.skip(0) =~= s0);
        }
        while i < n
            invariant
                i <= n,
                n == self.entries@.len(),
                self.entries@ == s0,
                kept_unpinned <= cap,
                retained(s0, cap as int) == kept@ + retained(
                    s0.skip(i as int),
                    cap as int - kept_unpinned as int,
                ),
            decreases n - i,
        {
            let ghost kept0 = kept@;
            let ghost rest = s0.skip(i as int);
            let ghost c = cap as int - kept_unpinned as int;
            proof {
                assert(rest.len() > 0);
                assert(rest.first() == s0[i as int]);
                assert(rest.drop_first() =~= s0.skip(i as int + 1));
            }
            if self.entries[i].pinned {
                kept.push(self.entries[i].duplicate());
                proof {
                    assert(retained(rest, c) == seq![rest.first()] + retained(rest.drop_first(), c));
                    assert(kept0 + (seq![rest.first()] + retained(rest.drop_first(), c))
                        =~= kept0.push(rest.first()) + retained(rest.drop_first(), c));
                }
            } else if kept_unpinned < cap {
                kept.push(self.entries[i].duplicate());
                kept_unpinned = kept_unpinned + 1;
                proof {
                    assert(c > 0);
                    assert(retained(rest, c) == seq![rest.first()] + retained(
                        rest.drop_first(),
                        c - 1,
                    ));
                    assert(kept0 + (seq![rest.first()] + retained(rest.drop_first(), c - 1))
                        =~= kept0.push(rest.first()) + retained(rest.drop_first(), c - 1));
                }
            } else {
                proof {
                    assert(c == 0);
                    assert(retained(rest, c) == retained(rest.drop_first(), c));
                }
            }
            i = i + 1;
        }
        proof {
            assert(s0.skip(n as int) =~= Seq::<ClipboardItem>::empty());
            assert(retained(Seq::<ClipboardItem>::empty(), cap as int - kept_unpinned as int)
                =~= Seq::<ClipboardItem>::empty());
            assert(kept@ + Seq::<ClipboardItem>::empty() =~= kept@);
            assert(kept@ == retained(s0, cap as int));
            lemma_retained_sub(s0, cap as int);
            lemma_retained_ids_decreasing(s0, cap as int);
            lemma_no_dup_sub(retained(s0, cap as int), s0);
            lemma_ids_below_sub(retained(s0, cap as int), s0, old(self).next_id as int);
            lemma_retained_cap(s0, cap as int);
            lemma_retained_keeps_pinned(s0, cap as int);
        }
        self.entries = kept;
        Ok(())
    }

    /// Removes every entry whose `(content, kind)` key matches, keeping the
    /// rest in order.
    fn retain_without_key(&mut self, content: &str, kind: EntryKind)
        ensures
            final(self).entries@ == without_key(old(self).entries@, content@, kind),
            final(self).next_id == old(self).next_id,
            final(self).config == old(self).config,
    {
        let ghost s0 = self.entries@;
        let mut kept: Vec<ClipboardItem> = Vec::new();
        let n = self.entries.len();
        let mut i: usize = 0;
        proof {
            reveal(Seq::filter);
            assert(s0.subrange(0, 0) =~= Seq::<ClipboardItem>::empty());
        }
        while i < n
            invariant
                i <= n,
                n == self.entries@.len(),
                self.entries@ == s0,
                kept@ == without_key(s0.subrange(0, i as int), content@, kind),
            decreases n - i,
        {
            let ghost kept0 = kept@;
            let matches_key = str_eq(self.entries[i].content.as_str(), content)
                && self.entries[i].kind == kind;
            if !matches_key {
                kept.push(self.entries[i].duplicate());
            }
            proof {
                reveal(Seq::filter);
                let prefix = s0.subrange(0, i as int + 1);
                assert(prefix.drop_last() =~= s0.subrange(0, i as int));
                assert(prefix.last() == s0[i as int]);
            }
            i = i + 1;
        }
        proof {
            assert(s0.subrange(0, n as int) =~= s0);
        }
        self.entries = kept;
    }

    /// Inserts an entry with the given content, kind and timestamp as the
    /// newest record: any prior entry with the same `(content, kind)` is
    /// deleted first, the new entry starts unpinned, and retention is
    /// enforced under the configured cap.
    pub fn add_entry(&mut self, content: String, kind: EntryKind, timestamp: String) -> (r: Result<
        i64,
        StorageError,
    >)
        requires
            old(self).wf(),
            old(self).next_id < i64::MAX,
        ensures
            final(self).wf(),
            r matches Ok(id) && id == old(self).next_id,
            final(self).next_id == old(self).next_id + 1,
            final(self).config == old(self).config,
            final(self).entries@ == inserted(
                old(self).entries@,
                (ClipboardItem {
                    id: old(self).next_id,
                    content: content,
                    kind: kind,
                    timestamp: timestamp,
                    pinned: false,
                }),
                old(self).cap(),
            ),
            unpinned_count(final(self).entries@) <= old(self).cap(),
    {
        let ghost s0 = self.entries@;
        let id = self.next_id;
        let cap = self.config.max_history_count;
        let ghost gcontent = content;
        let ghost gstamp = timestamp;
        self.retain_without_key(content.as_str(), kind);
        let ghost stripped = self.entries@;
        let entry = ClipboardItem { id, content, kind, timestamp, pinned: false };
        let ghost gentry = entry;
        self.entries.insert(0, entry);
        self.next_id = id + 1;
        proof {
            assert(self.entries@ =~= seq![gentry] + stripped);
            let pred = |e: ClipboardItem| !(e.content@ == gcontent@ && e.kind == kind);
            lemma_filter_sub(s0, pred);
            lemma_filter_ids_decreasing(s0, pred);
            lemma_no_dup_sub(stripped, s0);
            lemma_ids_below_sub(stripped, s0, id as int);
            let cur = self.entries@;
            assert forall|a: int, b: int| 0 <= a < b < cur.len() implies cur[a].id > cur[b].id by {
                if a == 0 {
                    assert(cur[b] == stripped[b - 1]);
                    assert(stripped.contains(stripped[b - 1]));
                }
            }
            assert forall|a: int, b: int| 0 <= a < b < cur.len() implies !same_key(
                cur[a],
                cur[b],
            ) by {
                if a == 0 {
                    assert(cur[b] == stripped[b - 1]);
                    assert(stripped.contains(stripped[b - 1]));
                    assert(pred(stripped[b - 1]));
                }
            }
            assert forall|a: int| 0 <= a < cur.len() implies 0 < #[trigger] cur[a].id < self.next_id
                as int by {
                if a > 0 {
                    assert(cur[a] == stripped[a - 1]);
                    assert(stripped.contains(stripped[a - 1]));
                }
            }
            assert(self.wf());
        }
        let res = self.enforce_retention(cap);
        match res {
            Ok(()) => Ok(id),
            Err(e) => Err(e),
        }
    }

    /// Records freshly observed clipboard content, timestamped now. Never
    /// fails on valid input.
    pub fn add_clipboard_item(&mut self, content: &str, kind: EntryKind) -> (r: Result<
        i64,
        StorageError,
    >)
        requires
            old(self).wf(),
            old(self).next_id < i64::MAX,
        ensures
            final(self).wf(),
            r matches Ok(id) && id == old(self).next_id,
            insert_step(*old(self), content@, kind, *final(self)),
            unpinned_count(final(self).entries@) <= old(self).cap(),
    {
        let owned: String = content.to_owned();
        let stamp: String = now_rfc3339();
        let ghost gowned = owned;
        let ghost gstamp = stamp;
        let r = self.add_entry(owned, kind, stamp);
        proof {
            let e = ClipboardItem {
                id: old(self).next_id,
                content: gowned,
                kind: kind,
                timestamp: gstamp,
                pinned: false,
            };
            assert(self.entries@ == inserted(old(self).entries@, e, old(self).cap()));
        }
        r
    }

    /// Deletes the entry with the given id. Idempotent: a nonexistent id
    /// succeeds and leaves the store unchanged.
    pub fn delete_clipboard_item(&mut self, id: i64) -> (r: Result<(), StorageError>)
        requires
            old(self).wf(),
        ensures
            final(self).wf(),
            r is Ok,
            final(self).entries@ == without_id(old(self).entries@, id),
            final(self).next_id == old(self).next_id,
            final(self).config == old(self).config,
            (forall|k: int|
                0 <= k < old(self).entries@.len() ==> #[trigger] old(self).entries@[k].id != id)
                ==> final(self).entries@ == old(self).entries@,
    {
        let ghost s0 = self.entries@;
        let mut kept: Vec<ClipboardItem> = Vec::new();
        let n = self.entries.len();
        let mut i: usize = 0;
        proof {
            reveal(Seq::filter);
            assert(s0.subrange(0, 0) =~= Seq::<ClipboardItem>::empty());
        }
        while i < n
            invariant
                i <= n,
                n == self.entries@.len(),
                self.entries@ == s0,
                kept@ == without_id(s0.subrange(0, i as int), id),
            decreases n - i,
        {
            if self.entries[i].id != id {
                kept.push(self.entries[i].duplicate());
            }
            proof {
                reveal(Seq::filter);
                let prefix = s0.subrange(0, i as int + 1);
                assert(prefix.drop_last() =~= s0.subrange(0, i as int));
                assert(prefix.last() == s0[i as int]);
            }
            i = i + 1;
        }
        proof {
            assert(s0.subrange(0, n as int) =~= s0);
            let pred = |e: ClipboardItem| e.id != id;
            lemma_filter_sub(s0, pred);
            lemma_filter_ids_decreasing(s0, pred);
            lemma_no_dup_sub(without_id(s0, id), s0);
            lemma_ids_below_sub(without_id(s0, id), s0, old(self).next_id as int);
            if forall|k: int| 0 <= k < s0.len() ==> #[trigger] s0[k].id != id {
                lemma_filter_all(s0, pred);
            }
        }
        self.entries = kept;
        Ok(())
    }

    /// Flips the pinned flag of the entry with the given id. Idempotent
    /// no-op if the id is absent.
    pub fn toggle_pin(&mut self, id: i64) -> (r: Result<(), StorageError>)
        requires
            old(self).wf(),
        ensures
            final(self).wf(),
            r is Ok,
            final(self).entries@.len() == old(self).entries@.len(),
            forall|k: int|
                0 <= k < old(self).entries@.len() ==> #[trigger] final(self).entries@[k] == (if old(self).entries@[k].id == id {
                    with_pin_flipped(old(self).entries@[k])
                } else {
                    old(self).entries@[k]
                }),
            final(self).next_id == old(self).next_id,
            final(self).config == old(self).config,
            (forall|k: int|
                0 <= k < old(self).entries@.len() ==> #[trigger] old(self).entries@[k].id != id)
                ==> final(self).entries@ == old(self).entries@,
    {
        let ghost s0 = self.entries@;
        let mut updated: Vec<ClipboardItem> = Vec::new();
        let n = self.entries.len();
        let mut i: usize = 0;
        while i < n
            invariant
                i <= n,
                n == self.entries@.len(),
                self.entries@ == s0,
                updated@.len() == i,
                forall|k: int|
                    0 <= k < i ==> #[trigger] updated@[k] == (if s0[k].id == id {
                        with_pin_flipped(s0[k])
                    } else {
                        s0[k]
                    }),
            decreases n - i,
        {
            if self.entries[i].id == id {
                let e = ClipboardItem {
                    id: self.entries[i].id,
                    content: self.entries[i].content.clone(),
                    kind: self.entries[i].kind,
                    timestamp: self.entries[i].timestamp.clone(),
                    pinned: !self.entries[i].pinned,
                };
                updated.push(e);
            } else {
                updated.push(self.entries[i].duplicate());
            }
            i = i + 1;
        }
        proof {
            let f = updated@;
            assert forall|a: int, b: int| 0 <= a < b < f.len() implies f[a].id > f[b].id by {
                assert(s0[a].id > s0[b].id);
            }
            assert forall|a: int, b: int| 0 <= a < b < f.len() implies !same_key(f[a], f[b]) by {
                assert(!same_key(s0[a], s0[b]));
            }
            assert forall|a: int| 0 <= a < f.len() implies 0 < #[trigger] f[a].id < old(self).next_id as int by {
                assert(0 < s0[a].id < old(self).next_id as int);
            }
            if forall|k: int| 0 <= k < s0.len() ==> #[trigger] s0[k].id != id {
                assert(f =~= s0);
            }
        }
        self.entries = updated;
        Ok(())
    }

    /// The history in read order — pinned before unpinned, each group
    /// newest-first — truncated to the configured cap.
    pub fn get_clipboard_history(&self) -> (r: Result<Vec<ClipboardItem>, StorageError>)
        requires
            self.wf(),
        ensures
            r matches Ok(v) && v@ == listed(self.entries@, self.cap()),
            r matches Ok(v) ==> forall|a: int, b: int|
                0 <= a < b < v@.len() ==> (v@[a].pinned || !v@[b].pinned),
            r matches Ok(v) ==> forall|a: int, b: int|
                0 <= a < b < v@.len() && v@[a].pinned == v@[b].pinned ==> v@[a].id > v@[b].id,
    {
        let ghost s = self.entries@;
        let mut picked: Vec<ClipboardItem> = Vec::new();
        let mut rest: Vec<ClipboardItem> = Vec::new();
        let n = self.entries.len();
        let mut i: usize = 0;
        proof {
            reveal(Seq::filter);
            assert(s.subrange(0, 0) =~= Seq::<ClipboardItem>::empty());
        }
        while i < n
            invariant
                i <= n,
                n == self.entries@.len(),
                self.entries@ == s,
                picked@ == pinned_sel(s.subrange(0, i as int)),
                rest@ == unpinned_sel(s.subrange(0, i as int)),
            decreases n - i,
        {
            if self.entries[i].pinned {
                picked.push(self.entries[i].duplicate());
            } else {
                rest.push(self.entries[i].duplicate());
            }
            proof {
                reveal(Seq::filter);
                let prefix = s.subrange(0, i as int + 1);
                assert(prefix.drop_last() =~= s.subrange(0, i as int));
                assert(prefix.last() == s[i as int]);
            }
            i = i + 1;
        }
        proof {
            assert(s.subrange(0, n as int) =~= s);
        }
        picked.append(&mut rest);
        let limit: usize = self.config.max_history_count as usize;
        picked.truncate(limit);
        proof {
            let view = ordered_view(s);
            let pinned_pred = |e: ClipboardItem| e.pinned;
            let unpinned_pred = |e: ClipboardItem| !e.pinned;
            lemma_filter_ids_decreasing(s, pinned_pred);
            lemma_filter_ids_decreasing(s, unpinned_pred);
            if self.cap() < view.len() {
                assert(picked@ == view.take(self.cap()));
            } else {
                assert(picked@ =~= view);
            }
            let p_len = pinned_sel(s).len() as int;
            assert forall|a: int| 0 <= a < picked@.len() implies picked@[a] == view[a] && (
            picked@[a].pinned <==> a < p_len) by {
                if a < p_len {
                    assert(view[a] == pinned_sel(s)[a]);
                    s.lemma_filter_pred(pinned_pred, a);
                } else {
                    assert(view[a] == unpinned_sel(s)[a - p_len]);
                    s.lemma_filter_pred(unpinned_pred, a - p_len);
                }
            }
            assert forall|a: int, b: int|
                0 <= a < b < picked@.len() && picked@[a].pinned == picked@[b].pinned implies
                picked@[a].id > picked@[b].id by {
                if a < p_len && b < p_len {
                    assert(picked@[a] == pinned_sel(s)[a]);
                    assert(picked@[b] == pinned_sel(s)[b]);
                } else {
                    assert(a >= p_len && b >= p_len);
                    assert(picked@[a] == unpinned_sel(s)[a - p_len]);
                    assert(picked@[b] == unpinned_sel(s)[b - p_len]);
                }
            }
        }
        Ok(picked)
    }

    /// Persists a whole configuration atomically. When the cap changed, the
    /// new cap takes effect immediately: retention runs without waiting for
    /// the next insert.
    pub fn update_config(&mut self, config: &AppConfig) -> (r: Result<(), StorageError>)
        requires
            old(self).wf(),
        ensures
            final(self).wf(),
            r is Ok,
            final(self).config == *config,
            final(self).next_id == old(self).next_id,
            old(self).config.max_history_count == config.max_history_count ==> final(self).entries@ == old(self).entries@,
            old(self).config.max_history_count != config.max_history_count ==> final(self).entries@ == retained(old(self).entries@, config.max_history_count as int)
                && unpinned_count(final(self).entries@) <= config.max_history_count as int,
            forall|x: ClipboardItem|
                old(self).entries@.contains(x) && x.pinned ==> final(self).entries@.contains(x),
    {
        if self.config.max_history_count != config.max_history_count {
            let res = self.enforce_retention(config.max_history_count);
            match res {
                Ok(()) => (),
                Err(e) => {
                    return Err(e);
                },
            }
        }
        self.config = config.duplicate();
        Ok(())
    }

    /// Checks that the rows carry strictly decreasing positive identifiers
    /// below the id counter.
    fn check_ids(entries: &Vec<ClipboardItem>, next_id: i64) -> (ok: bool)
        requires
            next_id >= 1,
        ensures
            ok <==> (ids_decreasing(entries@) && ids_below(entries@, next_id as int)),
    {
        let n = entries.len();
        let mut i: usize = 0;
        while i < n
            invariant
                i <= n,
                n == entries@.len(),
                next_id >= 1,
                forall|k: int| 0 <= k < i ==> 0 < #[trigger] entries@[k].id < next_id as int,
                forall|p: int, q: int| 0 <= p < q < i ==> entries@[p].id > entries@[q].id,
            decreases n - i,
        {
            if entries[i].id < 1 || entries[i].id >= next_id {
                proof {
                    assert(!(0 < entries@[i as int].id < next_id as int));
                }
                return false;
            }
            if i > 0 && entries[i - 1].id <= entries[i].id {
                proof {
                    assert(!(entries@[i as int - 1].id > entries@[i as int].id));
                }
                return false;
            }
            proof {
                assert forall|p: int, q: int| 0 <= p < q < i as int + 1 implies entries@[p].id
                    > entries@[q].id by {
                    if q == i as int && p < i as int - 1 {
                        assert(entries@[p].id > entries@[i as int - 1].id);
                    }
                }
            }
            i = i + 1;
        }
        true
    }

    /// Checks that no two rows share a `(content, kind)` key.
    fn check_unique(entries: &Vec<ClipboardItem>) -> (ok: bool)
        ensures
            ok <==> no_duplicate_keys(entries@),
    {
        let n = entries.len();
        let mut a: usize = 0;
        while a < n
            invariant
                a <= n,
                n == entries@.len(),
                forall|p: int, q: int|
                    0 <= p < q < entries@.len() && p < a ==> !(#[trigger] same_key(
                        entries@[p],
                        entries@[q],
                    )),
            decreases n - a,
        {
            let mut b: usize = a + 1;
            while b < n
                invariant
                    a < n,
                    a + 1 <= b <= n,
                    n == entries@.len(),
                    forall|q: int|
                        a < q < b ==> !(#[trigger] same_key(entries@[a as int], entries@[q])),
                decreases n - b,
            {
                let clash = str_eq(entries[a].content.as_str(), entries[b].content.as_str())
                    && entries[a].kind == entries[b].kind;
                if clash {
                    proof {
                        assert(same_key(entries@[a as int], entries@[b as int]));
                    }
                    return false;
                }
                b = b + 1;
            }
            a = a + 1;
        }
        true
    }

    /// Rebuilds an engine from durably stored state, validating it: the
    /// result is `Some` exactly when the rows are newest-first with strictly
    /// decreasing positive identifiers below the id counter, no two rows
    /// share a `(content, kind)` key, and the counter is at least one.
    pub fn restore(entries: Vec<ClipboardItem>, next_id: i64, config: AppConfig) -> (r: Option<
        DatabaseManager,
    >)
        ensures
            r matches Some(s) ==> {
                &&& s.wf()
                &&& s.entries@ == entries@
                &&& s.next_id == next_id
                &&& s.config == config
            },
            r is Some <==> {
                &&& ids_decreasing(entries@)
                &&& no_duplicate_keys(entries@)
                &&& ids_below(entries@, next_id as int)
                &&& next_id >= 1
            },
    {
        if next_id < 1 {
            return None;
        }
        if !Self::check_ids(&entries, next_id) {
            return None;
        }
        if !Self::check_unique(&entries) {
            return None;
        }
        Some(DatabaseManager { entries, next_id, config })
    }

    /// How many entries the store holds in total, pinned included,
    /// independently of the read limit.
    pub fn stored_count(&self) -> (n: usize)
        ensures
            n == self.entries@.len(),
    {
        self.entries.len()
    }
}

} // verus!
