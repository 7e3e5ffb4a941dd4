//! What is known of the phones behind the listed transports.
use crate::devices::{Device, DeviceView};
use crate::text;
use vstd::prelude::*;

verus! {

/// The serial and the transport id of a transport.
pub type Key = (Seq<char>, Seq<char>);

struct Entry {
    serial: String,
    id: String,
    identity: Option<String>,
}

impl Entry {
    spec fn key(self) -> Key {
        (self.serial@, self.id@)
    }

    fn is_for(&self, serial: &str, id: &str) -> (r: bool)
        ensures
            r == (self.key() == (serial@, id@)),
    {
        text::same(&self.serial, serial) && text::same(&self.id, id)
    }
}

spec fn map_of(entries: Seq<Entry>) -> Map<Key, Option<Seq<char>>>
    decreases entries.len(),
{
    if entries.len() == 0 {
        Map::empty()
    } else {
        map_of(entries.drop_last()).insert(
            entries.last().key(),
            entries.last().identity.deep_view(),
        )
    }
}

/// The identities that transports have told. A transport that was asked in vain is
/// known too, with no identity.
pub struct Identities {
    entries: Vec<Entry>,
}

impl View for Identities {
    type V = Map<Key, Option<Seq<char>>>;

    closed spec fn view(&self) -> Map<Key, Option<Seq<char>>> {
        map_of(self.entries@)
    }
}

impl DeviceView {
    /// What names the transport.
    pub open spec fn key(self) -> Key {
        (self.serial, self.id)
    }

    /// The transport with another identity.
    pub open spec fn with_identity(self, identity: Option<Seq<char>>) -> DeviceView {
        DeviceView { identity, ..self }
    }
}

/// Whether `d` is the ready transport `key`.
pub open spec fn is_ready(d: DeviceView, key: Key) -> bool {
    d.key() == key && d.state == "device"@
}

/// Whether the transport `key` is listed as ready.
pub open spec fn is_live(ds: Seq<DeviceView>, key: Key) -> bool {
    exists|i: int| 0 <= i < ds.len() && is_ready(#[trigger] ds[i], key)
}

/// What is left of `known` when `ds` are listed.
pub open spec fn still_known(
    known: Map<Key, Option<Seq<char>>>,
    ds: Seq<DeviceView>,
) -> Map<Key, Option<Seq<char>>> {
    Map::new(|k: Key| known.contains_key(k) && is_live(ds, k), |k: Key| known[k])
}

/// The identity that `known` holds for a transport, if any.
pub open spec fn identity_in(
    known: Map<Key, Option<Seq<char>>>,
    key: Key,
) -> Option<Seq<char>> {
    if known.contains_key(key) {
        known[key]
    } else {
        None
    }
}

/// The listed transports with what `known` holds of them.
pub open spec fn with_identities(
    known: Map<Key, Option<Seq<char>>>,
    ds: Seq<DeviceView>,
) -> Seq<DeviceView> {
    ds.map_values(|d: DeviceView| d.with_identity(identity_in(known, d.key())))
}

/// What the entries hold for the transport `key`.
spec fn held(entries: Seq<Entry>, key: Key) -> Option<Option<Seq<char>>> {
    if map_of(entries).contains_key(key) {
        Some(map_of(entries)[key])
    } else {
        None
    }
}

proof fn lemma_remove_entry(entries: Seq<Entry>, i: int, v: Option<Seq<char>>)
    requires
        0 <= i < entries.len(),
    ensures
        map_of(entries.remove(i)).insert(entries[i].key(), v) == map_of(entries).insert(
            entries[i].key(),
            v,
        ),
    decreases entries.len(),
{
    let rest = entries.drop_last();
    let key = entries[i].key();
    let last = entries.last().key();
    let w = entries.last().identity.deep_view();
    if i == entries.len() - 1 {
        assert(entries.remove(i) == rest);
        assert(map_of(rest).insert(key, w).insert(key, v) =~= map_of(rest).insert(key, v));
    } else {
        lemma_remove_entry(rest, i, v);
        let fewer = rest.remove(i);
        assert(entries.remove(i).drop_last() == fewer);
        if last == key {
            assert(map_of(fewer).insert(key, w).insert(key, v) =~= map_of(fewer).insert(key, v));
            assert(map_of(rest).insert(key, w).insert(key, v) =~= map_of(rest).insert(key, v));
        } else {
            assert(map_of(fewer).insert(last, w).insert(key, v) =~= map_of(fewer).insert(
                key,
                v,
            ).insert(last, w));
            assert(map_of(rest).insert(last, w).insert(key, v) =~= map_of(rest).insert(
                key,
                v,
            ).insert(last, w));
        }
    }
}

fn live(ds: &[Device], serial: &str, id: &str) -> (r: bool)
    ensures
        r == is_live(ds.deep_view(), (serial@, id@)),
{
    let ghost all = ds.deep_view();
    let mut i: usize = 0;
    while i < ds.len()
        invariant
            i <= ds@.len(),
            all == ds.deep_view(),
            forall|j: int| 0 <= j < i ==> !is_ready(#[trigger] all[j], (serial@, id@)),
        decreases ds@.len() - i,
    {
        if text::same(&ds[i].serial, serial) && text::same(&ds[i].id, id) && text::same(
            &ds[i].state,
            "device",
        ) {
            assert(is_ready(all[i as int], (serial@, id@)));
            return true;
        }
        assert(all[i as int] == ds@[i as int]@);
        i += 1;
    }
    false
}

impl Default for Identities {
    /// Nothing is known.
    fn default() -> (r: Self)
        ensures
            r@ == Map::<Key, Option<Seq<char>>>::empty(),
    {
        Identities { entries: Vec::new() }
    }
}

impl Identities {
    fn find(&self, serial: &str, id: &str) -> (r: Option<usize>)
        ensures
            match r {
                Some(i) => i < self.entries@.len() && self.entries@[i as int].key() == (
                    serial@,
                    id@,
                ) && held(self.entries@, (serial@, id@)) == Some(
                    self.entries@[i as int].identity.deep_view(),
                ),
                None => held(self.entries@, (serial@, id@)) is None,
            },
    {
        let mut i: usize = self.entries.len();
        assert(self.entries@.take(i as int) == self.entries@);
        while i > 0
            invariant
                i <= self.entries@.len(),
                held(self.entries@, (serial@, id@)) == held(
                    self.entries@.take(i as int),
                    (serial@, id@),
                ),
            decreases i,
        {
            let ghost part = self.entries@.take(i as int);
            assert(part.drop_last() == self.entries@.take(i - 1));
            i -= 1;
            if self.entries[i].is_for(serial, id) {
                return Some(i);
            }
        }
        assert(self.entries@.take(0).len() == 0);
        None
    }

    /// Takes note of what is listed: what was known of a transport that is not
    /// ready any more is forgotten, and the listed ones get what is known of them.
    pub fn reconcile(&mut self, ds: &mut [Device])
        ensures
            final(self)@ == still_known(old(self)@, old(ds).deep_view()),
            final(ds).deep_view() == with_identities(final(self)@, old(ds).deep_view()),
    {
        self.retain(ds);
        let ghost all = ds.deep_view();
        let ghost known = self@;
        let ghost full = with_identities(known, all);
        let mut i: usize = 0;
        assert(full.take(0) + all.skip(0) == all);
        while i < ds.len()
            invariant
                i <= ds@.len(),
                ds@.len() == all.len(),
                known == self@,
                full == with_identities(known, all),
                ds.deep_view() == full.take(i as int) + all.skip(i as int),
            decreases ds@.len() - i,
        {
            let ghost before = ds.deep_view();
            assert(before[i as int] == all[i as int]);
            assert(before[i as int] == ds@[i as int]@);
            let identity = self.get(&ds[i]);
            ds[i].identity = identity;
            proof {
                assert(ds@[i as int]@ == full[i as int]);
                assert(ds.deep_view() == before.update(i as int, full[i as int]));
                assert(full.take(i + 1) + all.skip(i + 1) == before.update(
                    i as int,
                    full[i as int],
                ));
            }
            i += 1;
        }
        assert(full.take(i as int) + all.skip(i as int) == full);
    }

    fn retain(&mut self, ds: &[Device])
        ensures
            final(self)@ == still_known(old(self)@, ds.deep_view()),
    {
        let ghost all = ds.deep_view();
        let mut kept: Vec<Entry> = Vec::new();
        let mut i: usize = 0;
        let ghost old_entries = self.entries@;
        assert(map_of(old_entries.take(0)) == Map::<Key, Option<Seq<char>>>::empty());
        assert(map_of(kept@) =~= still_known(map_of(old_entries.take(0)), all));
        while i < self.entries.len()
            invariant
                i <= old_entries.len(),
                self.entries@ == old_entries,
                all == ds.deep_view(),
                map_of(kept@) == still_known(map_of(old_entries.take(i as int)), all),
            decreases old_entries.len() - i,
        {
            let e = &self.entries[i];
            let ghost before = kept@;
            let ghost part = map_of(old_entries.take(i as int));
            assert(old_entries.take(i + 1).drop_last() == old_entries.take(i as int));
            assert(map_of(old_entries.take(i + 1)) == part.insert(
                e.key(),
                e.identity.deep_view(),
            ));
            if live(ds, &e.serial, &e.id) {
                let copy = Entry {
                    serial: e.serial.clone(),
                    id: e.id.clone(),
                    identity: text::copy(&e.identity),
                };
                kept.push(copy);
                assert(kept@.drop_last() == before);
                assert(map_of(kept@) == map_of(before).insert(e.key(), e.identity.deep_view()));
            }
            assert(map_of(kept@) =~= still_known(map_of(old_entries.take(i + 1)), all));
            i += 1;
        }
        assert(old_entries.take(i as int) == old_entries);
        self.entries = kept;
    }

    fn get(&self, d: &Device) -> (r: Option<String>)
        ensures
            r.deep_view() == identity_in(self@, d@.key()),
    {
        match self.find(&d.serial, &d.id) {
            Some(i) => text::copy(&self.entries[i].identity),
            None => None,
        }
    }

    /// Whether the transport has been asked.
    pub fn known(&self, d: &Device) -> (r: bool)
        ensures
            r == self@.contains_key(d@.key()),
    {
        self.find(&d.serial, &d.id).is_some()
    }

    /// Notes what the transport answered.
    pub fn put(&mut self, d: &mut Device, value: Option<String>)
        ensures
            final(self)@ == old(self)@.insert(old(d)@.key(), value.deep_view()),
            final(d)@ == old(d)@.with_identity(value.deep_view()),
    {
        let copy = text::copy(&value);
        let entry = Entry { serial: d.serial.clone(), id: d.id.clone(), identity: copy };
        let ghost before = self.entries@;
        match self.find(&d.serial, &d.id) {
            Some(i) => {
                proof {
                    lemma_remove_entry(before, i as int, value.deep_view());
                }
                self.entries.remove(i);
            },
            None => {},
        }
        let ghost rest = self.entries@;
        self.entries.push(entry);
        assert(self.entries@.drop_last() == rest);
        d.identity = value;
    }
}

/// What is known of a transport stays known exactly as long as the transport is listed
/// as ready, and is then told of it; of other transports nothing is told. Nothing else
/// of the listed transports changes.
pub proof fn law_identities_follow_the_list(
    known: Map<Key, Option<Seq<char>>>,
    ds: Seq<DeviceView>,
    i: int,
)
    requires
        0 <= i < ds.len(),
    ensures
        ({
            let left = still_known(known, ds);
            let now = with_identities(left, ds);
            &&& forall|k: Key| #[trigger]
                left.contains_key(k) <==> known.contains_key(k) && exists|j: int|
                    0 <= j < ds.len() && (#[trigger] ds[j]).serial == k.0 && ds[j].id == k.1
                        && ds[j].state == "device"@
            &&& forall|k: Key| #[trigger] left.contains_key(k) ==> left[k] == known[k]
            &&& now.len() == ds.len()
            &&& now[i] == (DeviceView { identity: now[i].identity, ..ds[i] })
            &&& now[i].identity == if left.contains_key((ds[i].serial, ds[i].id)) {
                known[(ds[i].serial, ds[i].id)]
            } else {
                None
            }
            &&& ds[i].state == "device"@ && known.contains_key((ds[i].serial, ds[i].id))
                ==> now[i].identity == known[(ds[i].serial, ds[i].id)]
        }),
{
    let left = still_known(known, ds);
    assert forall|k: Key| #[trigger] left.contains_key(k) <==> known.contains_key(k) && exists|j: int|
        0 <= j < ds.len() && (#[trigger] ds[j]).serial == k.0 && ds[j].id == k.1 && ds[j].state
            == "device"@ by {
        if is_live(ds, k) {
            let j = choose|j: int| 0 <= j < ds.len() && is_ready(#[trigger] ds[j], k);
            assert(ds[j].serial == k.0);
        }
        if exists|j: int|
            0 <= j < ds.len() && (#[trigger] ds[j]).serial == k.0 && ds[j].id == k.1 && ds[j].state
                == "device"@ {
            let j = choose|j: int|
                0 <= j < ds.len() && (#[trigger] ds[j]).serial == k.0 && ds[j].id == k.1
                    && ds[j].state == "device"@;
            assert(is_ready(ds[j], k));
        }
    }
    if ds[i].state == "device"@ {
        assert(is_ready(ds[i], (ds[i].serial, ds[i].id)));
    }
}

} // verus!
