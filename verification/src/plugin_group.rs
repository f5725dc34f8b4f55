//! Ordered, keyed registration of pluggable subsystem initializers, with
//! relative-position insertion and enable/disable toggling, applied in order
//! by a one-shot `finish`.

use vstd::prelude::*;

verus! {

/// A group of plugins that registers itself into a builder.
pub trait PluginGroup<P> {
    /// Register this group's plugins, in the group's own order.
    fn build(self, group: &mut PluginGroupBuilder<P>);
}

/// One registered plugin: its key (the registering type's identity), the
/// plugin value itself, and whether `finish` will apply it.
pub struct PluginEntry<P> {
    pub key: u64,
    pub plugin: P,
    pub enabled: bool,
}

/// No key is registered twice.
pub open spec fn distinct_keys<P>(es: Seq<PluginEntry<P>>) -> bool {
    forall|i: int, j: int| 0 <= i < j < es.len() ==> es[i].key != es[j].key
}

/// Index of the entry registered under `key` (the only one, where keys are
/// distinct).
pub open spec fn spec_key_index<P>(es: Seq<PluginEntry<P>>, key: u64) -> int
    decreases es.len(),
{
    if es.len() == 0 {
        0
    } else if es[0].key == key {
        0
    } else {
        1 + spec_key_index(es.drop_first(), key)
    }
}

/// The entries `finish` applies: the enabled ones, in registration order.
pub open spec fn applied_entries<P>(es: Seq<PluginEntry<P>>) -> Seq<PluginEntry<P>>
    decreases es.len(),
{
    if es.len() == 0 {
        Seq::empty()
    } else if es[0].enabled {
        seq![es[0]] + applied_entries(es.drop_first())
    } else {
        applied_entries(es.drop_first())
    }
}

/// An ordered, keyed collection of plugins. The order is registration order;
/// `add_before`/`add_after` insert adjacent to an existing key; `finish`
/// applies the enabled entries strictly in order, exactly once each.
pub struct PluginGroupBuilder<P> {
    entries: Vec<PluginEntry<P>>,
}

impl<P> View for PluginGroupBuilder<P> {
    type V = Seq<PluginEntry<P>>;

    closed spec fn view(&self) -> Seq<PluginEntry<P>> {
        self.entries@
    }
}

impl<P> Default for PluginGroupBuilder<P> {
    /// An empty builder.
    fn default() -> (r: Self)
        ensures
            r@ =~= Seq::<PluginEntry<P>>::empty(),
    {
        PluginGroupBuilder { entries: Vec::new() }
    }
}

impl<P> PluginGroupBuilder<P> {
    /// Some entry is registered under `key`.
    pub open spec fn contains_key(&self, key: u64) -> bool {
        exists|i: int| 0 <= i < self@.len() && (#[trigger] self@[i]).key == key
    }

    /// An empty builder: nothing registered.
    pub fn new() -> (r: Self)
        ensures
            r@ =~= Seq::<PluginEntry<P>>::empty(),
            distinct_keys(r@),
    {
        PluginGroupBuilder { entries: Vec::new() }
    }

    /// Register `plugin` under a fresh `key`, at the end of the order,
    /// enabled.
    pub fn add(&mut self, key: u64, plugin: P)
        requires
            distinct_keys(old(self)@),
            !old(self).contains_key(key),
        ensures
            final(self)@ == old(self)@.push((PluginEntry { key, plugin, enabled: true })),
            distinct_keys(final(self)@),
    {
        self.entries.push(PluginEntry { key, plugin, enabled: true });
        proof {
            let v = self@;
            assert forall|i: int, j: int| 0 <= i < j < v.len() implies v[i].key != v[j].key by {
                if j < v.len() - 1 {
                    assert(old(self)@[i].key != old(self)@[j].key);
                } else {
                    assert(v[i] == old(self)@[i]);
                }
            }
        }
    }

    /// Find the index of the entry registered under `key`. The key must be
    /// present: a missing target is a bootstrap contract violation, which the
    /// caller turns into a loud failure, never a silent no-op.
    fn index_of(&self, key: u64) -> (idx: usize)
        requires
            self.contains_key(key),
        ensures
            idx == spec_key_index(self@, key),
            idx < self@.len(),
            self@[idx as int].key == key,
            forall|j: int| 0 <= j < idx ==> (#[trigger] self@[j]).key != key,
    {
        let n = self.entries.len();
        let mut i: usize = 0;
        proof {
            assert(self@.skip(0) =~= self@);
        }
        while i < n
            invariant
                n == self@.len(),
                i <= n,
                self.contains_key(key),
                spec_key_index(self@, key) == i + spec_key_index(self@.skip(i as int), key),
                forall|j: int| 0 <= j < i ==> (#[trigger] self@[j]).key != key,
            decreases n - i,
        {
            proof {
                assert(self@.skip(i as int)[0] == self@[i as int]);
                assert(self@.skip(i as int).drop_first() =~= self@.skip(i as int + 1));
            }
            if self.entries[i].key == key {
                return i;
            }
            i += 1;
        }
        // Not reached: the key is present, so the loop returned above.
        proof {
            let w = choose|w: int| 0 <= w < self@.len() && (#[trigger] self@[w]).key == key;
            assert(self@[w].key != key);
            assert(false);
        }
        0
    }

    /// Register `plugin` under a fresh `key`, enabled, immediately before
    /// the entry registered under `target`, which must be present.
    pub fn add_before(&mut self, target: u64, key: u64, plugin: P)
        requires
            distinct_keys(old(self)@),
            old(self).contains_key(target),
            !old(self).contains_key(key),
        ensures
            final(self)@ == old(self)@.insert(
                spec_key_index(old(self)@, target),
                (PluginEntry { key, plugin, enabled: true }),
            ),
            distinct_keys(final(self)@),
    {
        let target_index = self.index_of(target);
        let entry = PluginEntry { key, plugin, enabled: true };
        proof {
            lemma_insert_fresh_keeps_distinct(self@, target_index as int, entry);
        }
        self.entries.insert(target_index, entry);
    }

    /// Register `plugin` under a fresh `key`, enabled, immediately after
    /// the entry registered under `target`, which must be present.
    pub fn add_after(&mut self, target: u64, key: u64, plugin: P)
        requires
            distinct_keys(old(self)@),
            old(self).contains_key(target),
            !old(self).contains_key(key),
        ensures
            final(self)@ == old(self)@.insert(
                spec_key_index(old(self)@, target) + 1,
                (PluginEntry { key, plugin, enabled: true }),
            ),
            distinct_keys(final(self)@),
    {
        let target_index = self.index_of(target);
        assert(target_index < self.entries.len());
        let entry = PluginEntry { key, plugin, enabled: true };
        proof {
            lemma_insert_fresh_keeps_distinct(self@, target_index as int + 1, entry);
        }
        self.entries.insert(target_index + 1, entry);
    }

    /// Set the enabled flag of the entry registered under `key`, which must
    /// be present; everything else is untouched.
    fn set_enabled(&mut self, key: u64, enabled: bool)
        requires
            distinct_keys(old(self)@),
            old(self).contains_key(key),
        ensures
            final(self)@.len() == old(self)@.len(),
            forall|i: int|
                0 <= i < old(self)@.len() && i != spec_key_index(old(self)@, key)
                    ==> final(self)@[i] == old(self)@[i],
            final(self)@[spec_key_index(old(self)@, key)].key == key,
            final(self)@[spec_key_index(old(self)@, key)].plugin == old(self)@[spec_key_index(
                old(self)@,
                key,
            )].plugin,
            final(self)@[spec_key_index(old(self)@, key)].enabled == enabled,
            distinct_keys(final(self)@),
    {
        let idx = self.index_of(key);
        let entry = self.entries.remove(idx);
        let updated = PluginEntry { key: entry.key, plugin: entry.plugin, enabled };
        self.entries.insert(idx, updated);
        proof {
            let v = self@;
            let o = old(self)@;
            assert(v =~= o.remove(idx as int).insert(idx as int, updated));
            assert forall|i: int| 0 <= i < o.len() && i != idx as int implies v[i] == o[i] by {
                o.remove_ensures(idx as int);
                o.remove(idx as int).insert_ensures(idx as int, updated);
            }
            assert(v[idx as int] == updated) by {
                o.remove(idx as int).insert_ensures(idx as int, updated);
            }
            assert forall|i: int, j: int| 0 <= i < j < v.len() implies v[i].key != v[j].key by {
                assert(v[i].key == o[i].key);
                assert(v[j].key == o[j].key);
            }
        }
    }

    /// Re-enable the entry registered under `key`, which must be present.
    pub fn enable(&mut self, key: u64)
        requires
            distinct_keys(old(self)@),
            old(self).contains_key(key),
        ensures
            final(self)@.len() == old(self)@.len(),
            forall|i: int|
                0 <= i < old(self)@.len() && i != spec_key_index(old(self)@, key)
                    ==> final(self)@[i] == old(self)@[i],
            final(self)@[spec_key_index(old(self)@, key)].key == key,
            final(self)@[spec_key_index(old(self)@, key)].plugin == old(self)@[spec_key_index(
                old(self)@,
                key,
            )].plugin,
            final(self)@[spec_key_index(old(self)@, key)].enabled == true,
            distinct_keys(final(self)@),
    {
        self.set_enabled(key, true);
    }

    /// Disable the entry registered under `key`, which must be present:
    /// `finish` will skip it, with no error.
    pub fn disable(&mut self, key: u64)
        requires
            distinct_keys(old(self)@),
            old(self).contains_key(key),
        ensures
            final(self)@.len() == old(self)@.len(),
            forall|i: int|
                0 <= i < old(self)@.len() && i != spec_key_index(old(self)@, key)
                    ==> final(self)@[i] == old(self)@[i],
            final(self)@[spec_key_index(old(self)@, key)].key == key,
            final(self)@[spec_key_index(old(self)@, key)].plugin == old(self)@[spec_key_index(
                old(self)@,
                key,
            )].plugin,
            final(self)@[spec_key_index(old(self)@, key)].enabled == false,
            distinct_keys(final(self)@),
    {
        self.set_enabled(key, false);
    }

    /// Consume the builder and hand back the enabled plugins, strictly in
    /// registration order, each exactly once; disabled entries are skipped.
    pub fn finish(self) -> (r: Vec<P>)
        ensures
            r@.len() == applied_entries(self@).len(),
            forall|i: int|
                0 <= i < r@.len() ==> r@[i] == applied_entries(self@)[i].plugin,
    {
        let ghost es0 = self@;
        let mut entries = self.entries;
        let mut out: Vec<P> = Vec::new();
        while entries.len() > 0
            invariant
                out@.len() + applied_entries(entries@).len() == applied_entries(es0).len(),
                forall|i: int|
                    0 <= i < out@.len() ==> out@[i] == applied_entries(es0)[i].plugin,
                forall|i: int|
                    0 <= i < applied_entries(entries@).len() ==> applied_entries(entries@)[i]
                        == applied_entries(es0)[out@.len() + i],
            decreases entries@.len(),
        {
            let ghost before = entries@;
            let entry = entries.remove(0);
            proof {
                assert(entries@ =~= before.drop_first());
            }
            if entry.enabled {
                proof {
                    assert(applied_entries(before) =~= seq![before[0]] + applied_entries(
                        before.drop_first(),
                    ));
                    assert(applied_entries(before)[0] == before[0]);
                }
                let ghost out_before = out@;
                out.push(entry.plugin);
                proof {
                    assert forall|i: int|
                        0 <= i < applied_entries(entries@).len() implies applied_entries(
                        entries@,
                    )[i] == applied_entries(es0)[out@.len() + i] by {
                        assert(applied_entries(before)[i + 1] == applied_entries(entries@)[i]);
                        assert(applied_entries(before)[i + 1] == applied_entries(es0)[out_before.len()
                            + (i + 1)]);
                    }
                }
            } else {
                proof {
                    assert(applied_entries(before) == applied_entries(before.drop_first()));
                }
            }
        }
        proof {
            assert(applied_entries(entries@).len() == 0);
        }
        out
    }
}

/// Inserting an entry under a fresh key anywhere keeps keys distinct.
proof fn lemma_insert_fresh_keeps_distinct<P>(es: Seq<PluginEntry<P>>, pos: int, e: PluginEntry<P>)
    requires
        distinct_keys(es),
        0 <= pos <= es.len(),
        forall|i: int| 0 <= i < es.len() ==> (#[trigger] es[i]).key != e.key,
    ensures
        distinct_keys(es.insert(pos, e)),
{
    es.insert_ensures(pos, e);
    let v = es.insert(pos, e);
    assert forall|i: int, j: int| 0 <= i < j < v.len() implies v[i].key != v[j].key by {
        if i < pos {
            assert(v[i] == es[i]);
        } else if i == pos {
            assert(v[i] == e);
        } else {
            assert(v[i] == es[i - 1]);
        }
        if j < pos {
            assert(v[j] == es[j]);
        } else if j == pos {
            assert(v[j] == e);
        } else {
            assert(v[j] == es[j - 1]);
        }
    }
}

/// An enabled entry is among the applied entries.
proof fn lemma_enabled_entry_applied<P>(es: Seq<PluginEntry<P>>, j: int)
    requires
        0 <= j < es.len(),
        es[j].enabled,
    ensures
        exists|b: int|
            0 <= b < applied_entries(es).len() && #[trigger] applied_entries(es)[b] == es[j],
    decreases es.len(),
{
    if j == 0 {
        assert(applied_entries(es)[0] == es[0]);
    } else {
        lemma_enabled_entry_applied(es.drop_first(), j - 1);
        let b0 = choose|b: int|
            0 <= b < applied_entries(es.drop_first()).len() && #[trigger] applied_entries(
                es.drop_first(),
            )[b] == es.drop_first()[j - 1];
        if es[0].enabled {
            assert(applied_entries(es)[b0 + 1] == applied_entries(es.drop_first())[b0]);
        } else {
            assert(applied_entries(es)[b0] == applied_entries(es.drop_first())[b0]);
        }
    }
}

/// Two enabled entries are applied in registration order: the earlier one
/// stands strictly before the later one among the applied entries.
pub proof fn lemma_applied_in_registration_order<P>(es: Seq<PluginEntry<P>>, i: int, j: int)
    requires
        0 <= i < j < es.len(),
        es[i].enabled,
        es[j].enabled,
    ensures
        exists|a: int, b: int|
            0 <= a < b < applied_entries(es).len() && #[trigger] applied_entries(es)[a] == es[i]
                && #[trigger] applied_entries(es)[b] == es[j],
    decreases es.len(),
{
    if i == 0 {
        lemma_enabled_entry_applied(es.drop_first(), j - 1);
        let b0 = choose|b: int|
            0 <= b < applied_entries(es.drop_first()).len() && #[trigger] applied_entries(
                es.drop_first(),
            )[b] == es.drop_first()[j - 1];
        assert(applied_entries(es)[0] == es[0]);
        assert(applied_entries(es)[b0 + 1] == applied_entries(es.drop_first())[b0]);
    } else {
        lemma_applied_in_registration_order(es.drop_first(), i - 1, j - 1);
        let (a0, b0) = choose|a: int, b: int|
            0 <= a < b < applied_entries(es.drop_first()).len() && #[trigger] applied_entries(
                es.drop_first(),
            )[a] == es.drop_first()[i - 1] && #[trigger] applied_entries(es.drop_first())[b]
                == es.drop_first()[j - 1];
        if es[0].enabled {
            assert(applied_entries(es)[a0 + 1] == applied_entries(es.drop_first())[a0]);
            assert(applied_entries(es)[b0 + 1] == applied_entries(es.drop_first())[b0]);
        } else {
            assert(applied_entries(es) == applied_entries(es.drop_first()));
        }
    }
}

/// `add_before(target, x)` followed immediately by `finish` applies `x`
/// strictly before the target: in the entries after the insertion, `x`
/// stands among the applied entries at a position strictly before the
/// target's entry.
pub proof fn lemma_add_before_applies_before<P>(
    es: Seq<PluginEntry<P>>,
    t: int,
    xe: PluginEntry<P>,
)
    requires
        0 <= t < es.len(),
        xe.enabled,
        es[t].enabled,
    ensures
        exists|a: int, b: int|
            0 <= a < b < applied_entries(es.insert(t, xe)).len() && #[trigger] applied_entries(
                es.insert(t, xe),
            )[a] == xe && #[trigger] applied_entries(es.insert(t, xe))[b] == es[t],
{
    es.insert_ensures(t, xe);
    let es2 = es.insert(t, xe);
    assert(es2[t] == xe);
    assert(es2[t + 1] == es[t]);
    lemma_applied_in_registration_order(es2, t, t + 1);
}

/// `add_after(target, x)` followed immediately by `finish` applies `x`
/// strictly after the target.
pub proof fn lemma_add_after_applies_after<P>(es: Seq<PluginEntry<P>>, t: int, xe: PluginEntry<P>)
    requires
        0 <= t < es.len(),
        xe.enabled,
        es[t].enabled,
    ensures
        exists|a: int, b: int|
            0 <= a < b < applied_entries(es.insert(t + 1, xe)).len()
                && #[trigger] applied_entries(es.insert(t + 1, xe))[a] == es[t]
                && #[trigger] applied_entries(es.insert(t + 1, xe))[b] == xe,
{
    es.insert_ensures(t + 1, xe);
    let es2 = es.insert(t + 1, xe);
    assert(es2[t] == es[t]);
    assert(es2[t + 1] == xe);
    lemma_applied_in_registration_order(es2, t, t + 1);
}

/// Every applied entry stands, enabled, in the registered entries.
proof fn lemma_applied_entry_was_registered<P>(es: Seq<PluginEntry<P>>, a: int)
    requires
        0 <= a < applied_entries(es).len(),
    ensures
        exists|i: int|
            0 <= i < es.len() && #[trigger] es[i] == applied_entries(es)[a] && es[i].enabled,
    decreases es.len(),
{
    if es.len() > 0 {
        if es[0].enabled {
            if a == 0 {
                assert(applied_entries(es)[0] == es[0]);
            } else {
                lemma_applied_entry_was_registered(es.drop_first(), a - 1);
                let i0 = choose|i: int|
                    0 <= i < es.drop_first().len() && #[trigger] es.drop_first()[i]
                        == applied_entries(es.drop_first())[a - 1] && es.drop_first()[i].enabled;
                assert(applied_entries(es)[a] == applied_entries(es.drop_first())[a - 1]);
                assert(es[i0 + 1] == es.drop_first()[i0]);
            }
        } else {
            lemma_applied_entry_was_registered(es.drop_first(), a);
            let i0 = choose|i: int|
                0 <= i < es.drop_first().len() && #[trigger] es.drop_first()[i] == applied_entries(
                    es.drop_first(),
                )[a] && es.drop_first()[i].enabled;
            assert(es[i0 + 1] == es.drop_first()[i0]);
        }
    }
}

/// `finish` never applies a disabled entry: where keys are distinct, no
/// applied entry carries the key of a disabled one.
pub proof fn lemma_disabled_never_applied<P>(es: Seq<PluginEntry<P>>, j: int)
    requires
        distinct_keys(es),
        0 <= j < es.len(),
        !es[j].enabled,
    ensures
        forall|a: int|
            0 <= a < applied_entries(es).len() ==> (#[trigger] applied_entries(es)[a]).key
                != es[j].key,
{
    assert forall|a: int|
        0 <= a < applied_entries(es).len() implies (#[trigger] applied_entries(es)[a]).key
        != es[j].key by {
        lemma_applied_entry_was_registered(es, a);
        let i = choose|i: int|
            0 <= i < es.len() && #[trigger] es[i] == applied_entries(es)[a] && es[i].enabled;
        if i < j {
            assert(es[i].key != es[j].key);
        } else if j < i {
            assert(es[j].key != es[i].key);
        }
    }
}

} // verus!
