use crate::devices::{is_keyboard, keyboard_named};
use vstd::prelude::*;

verus! {

/// The kind of a change notification on the device directory.
#[derive(Clone, Copy, Debug, PartialEq, Eq, Structural)]
pub enum Notification {
    /// An entry's attributes changed: its permissions have settled and the
    /// device is ready to be opened.
    Ready,
    /// An entry was deleted.
    Removed,
    /// Anything else; ignored.
    Other,
}

/// The kernel's inotify flag for an attribute change.
pub const IN_ATTRIB: u32 = 0x4;

/// The kernel's inotify flag for a deleted entry.
pub const IN_DELETE: u32 = 0x200;

/// The kind of notification that an inotify event mask stands for. Only a
/// mask that is exactly one of the two flags counts.
pub open spec fn notification_of(mask: u32) -> Notification {
    if mask == IN_ATTRIB {
        Notification::Ready
    } else if mask == IN_DELETE {
        Notification::Removed
    } else {
        Notification::Other
    }
}

/// Relies on inotify's `EventMask::ATTRIB`, which is inotify-sys's
/// `IN_ATTRIB` (0x4), and on `EventMask` comparing its bits.
#[verifier::external_body]
fn is_attrib_mask(mask: u32) -> (r: bool)
    ensures
        r == (mask == IN_ATTRIB),
{
    inotify::EventMask::from_bits_retain(mask) == inotify::EventMask::ATTRIB
}

/// Relies on inotify's `EventMask::DELETE`, which is inotify-sys's
/// `IN_DELETE` (0x200), and on `EventMask` comparing its bits.
#[verifier::external_body]
fn is_delete_mask(mask: u32) -> (r: bool)
    ensures
        r == (mask == IN_DELETE),
{
    inotify::EventMask::from_bits_retain(mask) == inotify::EventMask::DELETE
}

/// Classifies an inotify event mask.
pub fn classify_mask(mask: u32) -> (r: Notification)
    ensures
        r == notification_of(mask),
{
    if is_attrib_mask(mask) {
        Notification::Ready
    } else if is_delete_mask(mask) {
        Notification::Removed
    } else {
        Notification::Other
    }
}

/// What the watcher has to do after a notification.
pub enum Action<H> {
    /// Open the device and classify it, then report through `on_probe`.
    Probe,
    /// The device's listener was dropped from the registry; here is its handle.
    Release(H),
    /// Nothing.
    Ignore,
}

/// The registry as a value: the tracked devices with their listener handles,
/// and the device that was last accepted by a probe and awaits its listener.
pub struct RegistryView<H> {
    pub entries: Map<Seq<char>, H>,
    pub pending: Option<Seq<char>>,
}

pub open spec fn name_view(name: Option<&str>) -> Option<Seq<char>> {
    match name {
        Some(n) => Some(n@),
        None => None,
    }
}

/// The registry after a notification of kind `kind` for device `id`.
pub open spec fn notification_step<H>(
    v: RegistryView<H>,
    kind: Notification,
    id: Seq<char>,
) -> RegistryView<H> {
    match kind {
        Notification::Removed => RegistryView { entries: v.entries.remove(id), pending: v.pending },
        _ => v,
    }
}

/// What the watcher is asked to do after that notification. A device that is
/// already tracked is not probed again.
pub open spec fn notification_action<H>(
    v: RegistryView<H>,
    kind: Notification,
    id: Seq<char>,
) -> Action<H> {
    match kind {
        Notification::Ready => if v.entries.contains_key(id) {
            Action::Ignore
        } else {
            Action::Probe
        },
        Notification::Removed => if v.entries.contains_key(id) {
            Action::Release(v.entries[id])
        } else {
            Action::Ignore
        },
        Notification::Other => Action::Ignore,
    }
}

/// A probe of device `id` that reported `name` accepts it: it is not tracked
/// yet and its name marks it as a keyboard. A device that could not be
/// opened reports no name.
pub open spec fn probe_accepts<H>(v: RegistryView<H>, id: Seq<char>, name: Option<Seq<char>>) -> bool {
    !v.entries.contains_key(id) && match name {
        Some(n) => keyboard_named(n),
        None => false,
    }
}

/// The registry after that probe.
pub open spec fn probe_step<H>(
    v: RegistryView<H>,
    id: Seq<char>,
    name: Option<Seq<char>>,
) -> RegistryView<H> {
    RegistryView {
        entries: v.entries,
        pending: if probe_accepts(v, id, name) {
            Some(id)
        } else {
            None
        },
    }
}

/// A started listener is recorded when a device awaits one.
pub open spec fn start_records<H>(v: RegistryView<H>) -> bool {
    match v.pending {
        Some(id) => !v.entries.contains_key(id),
        None => false,
    }
}

/// The registry after a listener with handle `h` was started.
pub open spec fn start_step<H>(v: RegistryView<H>, h: H) -> RegistryView<H> {
    RegistryView {
        entries: if start_records(v) {
            v.entries.insert(v.pending->Some_0, h)
        } else {
            v.entries
        },
        pending: None,
    }
}

/// `entries` holds each identifier once and lists exactly the pairs of `model`.
spec fn entries_match<H>(entries: Seq<(String, H)>, model: Map<Seq<char>, H>) -> bool {
    &&& forall|i: int|
        #![trigger entries[i]]
        0 <= i < entries.len() ==> model.contains_key(entries[i].0@) && model[entries[i].0@]
            == entries[i].1
    &&& forall|k: Seq<char>| #[trigger]
        model.contains_key(k) ==> exists|i: int| 0 <= i < entries.len() && entries[i].0@ == k
    &&& forall|i: int, j: int| 0 <= i < j < entries.len() ==> entries[i].0@ != entries[j].0@
}

/// A device whose name the classifier rejects, or that could not be opened,
/// is never accepted by a probe, and the listener handle offered afterwards
/// is handed back: no entry is created.
pub proof fn law_rejected_device_is_never_tracked<H>(
    v: RegistryView<H>,
    id: Seq<char>,
    name: Option<Seq<char>>,
    h: H,
)
    requires
        match name {
            Some(n) => !keyboard_named(n),
            None => true,
        },
    ensures
        !probe_accepts(v, id, name),
        !start_records(probe_step(v, id, name)),
        start_step(probe_step(v, id, name), h).entries == v.entries,
{
}

/// A delete notification drops the device's entry; a later attribute-change
/// notification for the same identifier, on a device the classifier accepts,
/// leads to a probe that accepts it and then records the new listener as a
/// fresh entry.
pub proof fn law_delete_then_ready_readds<H>(
    v: RegistryView<H>,
    id: Seq<char>,
    name: Seq<char>,
    h: H,
)
    requires
        keyboard_named(name),
    ensures
        !notification_step(v, Notification::Removed, id).entries.contains_key(id),
        notification_action(notification_step(v, Notification::Removed, id), Notification::Ready, id)
            == Action::<H>::Probe,
        probe_accepts(notification_step(v, Notification::Removed, id), id, Some(name)),
        start_step(probe_step(notification_step(v, Notification::Removed, id), id, Some(name)), h).entries
            == v.entries.remove(id).insert(id, h),
{
}

/// Maps each tracked device identifier to the handle of its running listener.
/// At most one entry per identifier.
pub struct Registry<H> {
    entries: Vec<(String, H)>,
    pending: Option<String>,
    model: Ghost<Map<Seq<char>, H>>,
}

impl<H> View for Registry<H> {
    type V = RegistryView<H>;

    closed spec fn view(&self) -> RegistryView<H> {
        RegistryView {
            entries: self.model@,
            pending: match self.pending {
                Some(s) => Some(s@),
                None => None,
            },
        }
    }
}

impl<H> Registry<H> {
    /// The entries hold each identifier once and agree with the model.
    pub closed spec fn wf(&self) -> bool {
        entries_match(self.entries@, self.model@)
    }

    /// An empty registry.
    pub fn new() -> (r: Registry<H>)
        ensures
            r.wf(),
            r@.entries == Map::<Seq<char>, H>::empty(),
            r@.pending is None,
    {
        Registry { entries: Vec::new(), pending: None, model: Ghost(Map::empty()) }
    }

    fn find(&self, id: &String) -> (r: Option<usize>)
        requires
            self.wf(),
        ensures
            match r {
                Some(i) => i < self.entries@.len() && self.entries@[i as int].0@ == id@,
                None => !self@.entries.contains_key(id@),
            },
    {
        let mut i: usize = 0;
        while i < self.entries.len()
            invariant
                i <= self.entries@.len(),
                forall|k: int| 0 <= k < i ==> self.entries@[k].0@ != id@,
            decreases self.entries@.len() - i,
        {
            if self.entries[i].0 == *id {
                return Some(i);
            }
            i = i + 1;
        }
        None
    }

    /// Whether device `id` is tracked.
    pub fn contains(&self, id: &String) -> (r: bool)
        requires
            self.wf(),
        ensures
            r == self@.entries.contains_key(id@),
    {
        self.find(id).is_some()
    }

    /// Reacts to a change notification for device `id`: a deletion drops the
    /// device's entry and hands back its listener handle; a ready device that
    /// is not tracked yet is to be probed; everything else is ignored.
    pub fn on_notification(&mut self, kind: Notification, id: &String) -> (r: Action<H>)
        requires
            old(self).wf(),
        ensures
            final(self).wf(),
            final(self)@ == notification_step(old(self)@, kind, id@),
            r == notification_action(old(self)@, kind, id@),
    {
        match kind {
            Notification::Ready => {
                if self.contains(id) {
                    Action::Ignore
                } else {
                    Action::Probe
                }
            },
            Notification::Removed => {
                match self.find(id) {
                    Some(i) => {
                        let ghost old_entries = self.entries@;
                        let ghost old_model = self.model@;
                        let (_, h) = self.entries.remove(i);
                        self.model = Ghost(self.model@.remove(id@));
                        proof {
                            let e = self.entries@;
                            assert forall|j: int| 0 <= j < e.len() implies #[trigger] e[j]
                                == (if j < i {
                                old_entries[j]
                            } else {
                                old_entries[j + 1]
                            }) by {}
                            assert forall|j: int|
                                #![trigger e[j]]
                                0 <= j < e.len() implies self.model@.contains_key(e[j].0@)
                                && self.model@[e[j].0@] == e[j].1 by {
                                if j < i {
                                    assert(old_entries[j] == e[j]);
                                } else {
                                    assert(old_entries[j + 1] == e[j]);
                                }
                            }
                            assert forall|k: Seq<char>| #[trigger]
                                self.model@.contains_key(k) implies exists|j: int|
                                0 <= j < e.len() && e[j].0@ == k by {
                                assert(old_model.contains_key(k));
                                let w = choose|w: int|
                                    0 <= w < old_entries.len() && old_entries[w].0@ == k;
                                assert(w != i);
                                if w < i {
                                    assert(e[w] == old_entries[w]);
                                } else {
                                    assert(e[w - 1] == old_entries[w]);
                                }
                            }
                            assert forall|a: int, b: int|
                                0 <= a < b < e.len() implies e[a].0@ != e[b].0@ by {
                                let oa = if a < i {
                                    a
                                } else {
                                    a + 1
                                };
                                let ob = if b < i {
                                    b
                                } else {
                                    b + 1
                                };
                                assert(e[a] == old_entries[oa]);
                                assert(e[b] == old_entries[ob]);
                            }
                            assert(self.model@ == old_model.remove(id@));
                        }
                        Action::Release(h)
                    },
                    None => {
                        assert(self.model@.remove(id@) =~= self.model@);
                        Action::Ignore
                    },
                }
            },
            Notification::Other => Action::Ignore,
        }
    }

    /// Records the outcome of probing device `id`, which reported `name`
    /// (`None` when it could not be opened). Returns whether the device was
    /// accepted; if so it awaits its listener, else nothing awaits.
    pub fn on_probe(&mut self, id: &String, name: Option<&str>) -> (r: bool)
        requires
            old(self).wf(),
        ensures
            final(self).wf(),
            final(self)@ == probe_step(old(self)@, id@, name_view(name)),
            r == probe_accepts(old(self)@, id@, name_view(name)),
    {
        let accepted = !self.contains(id) && is_keyboard(name);
        if accepted {
            self.pending = Some(id.clone());
        } else {
            self.pending = None;
        }
        accepted
    }

    /// Records the listener started for the accepted device. Without an
    /// accepted device awaiting one the handle is given back unrecorded.
    pub fn on_started(&mut self, handle: H) -> (r: Option<H>)
        requires
            old(self).wf(),
        ensures
            final(self).wf(),
            final(self)@ == start_step(old(self)@, handle),
            r == (if start_records(old(self)@) {
                None
            } else {
                Some(handle)
            }),
    {
        let ghost h = handle;
        match self.pending.take() {
            Some(id) => {
                if self.contains(&id) {
                    Some(handle)
                } else {
                    let ghost k = id@;
                    let ghost old_entries = self.entries@;
                    let ghost old_model = self.model@;
                    self.entries.push((id, handle));
                    self.model = Ghost(self.model@.insert(k, h));
                    proof {
                        let e = self.entries@;
                        let n = old_entries.len();
                        assert(e[n as int] == (id, h));
                        assert forall|j: int|
                            #![trigger e[j]]
                            0 <= j < e.len() implies self.model@.contains_key(e[j].0@)
                            && self.model@[e[j].0@] == e[j].1 by {
                            if j < n {
                                assert(e[j] == old_entries[j]);
                                assert(old_model.contains_key(old_entries[j].0@));
                            }
                        }
                        assert forall|x: Seq<char>| #[trigger]
                            self.model@.contains_key(x) implies exists|j: int|
                            0 <= j < e.len() && e[j].0@ == x by {
                            if x == k {
                                assert(e[n as int].0@ == x);
                            } else {
                                assert(old_model.contains_key(x));
                                let w = choose|w: int|
                                    0 <= w < old_entries.len() && old_entries[w].0@ == x;
                                assert(e[w] == old_entries[w]);
                            }
                        }
                        assert forall|a: int, b: int|
                            0 <= a < b < e.len() implies e[a].0@ != e[b].0@ by {
                            assert(e[a] == old_entries[a]);
                            if b < n {
                                assert(e[b] == old_entries[b]);
                            } else {
                                assert(old_model.contains_key(old_entries[a].0@));
                            }
                        }
                    }
                    None
                }
            },
            None => Some(handle),
        }
    }
}

} // verus!
