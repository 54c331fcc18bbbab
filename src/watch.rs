use vstd::prelude::*;

use crate::error::FsError;

verus! {

/// The kinds of change that a directory watch reports.
#[derive(Debug, Clone, Copy, PartialEq, Eq, Structural)]
pub enum WatchEventKind {
    /// A file or directory was created.
    Created,
    /// A file or directory was removed.
    Removed,
    /// A file or directory changed, in content or metadata.
    Modified,
    /// Anything else (access, an internal rename step, ...); not forwarded.
    Other,
}

/// One notification for subscribers: the channel it is sent on, which names
/// the change and the watcher, and the path it concerns.
#[derive(Debug, Clone)]
pub struct Notification {
    pub channel: String,
    pub path: String,
}

/// The start of the channel name for a kind of change, or `None` for a kind
/// that is dropped.
pub open spec fn channel_prefix(kind: WatchEventKind) -> Option<Seq<char>> {
    match kind {
        WatchEventKind::Created => Some(
            seq!['f', 'i', 'l', 'e', '-', 'c', 'r', 'e', 'a', 't', 'e', 'd', '-'],
        ),
        WatchEventKind::Removed => Some(
            seq!['f', 'i', 'l', 'e', '-', 'd', 'e', 'l', 'e', 't', 'e', 'd', '-'],
        ),
        WatchEventKind::Modified => Some(
            seq!['f', 'i', 'l', 'e', '-', 'c', 'h', 'a', 'n', 'g', 'e', 'd', '-'],
        ),
        WatchEventKind::Other => None,
    }
}

/// The channel on which changes of `kind` seen by watcher `id` are sent.
pub open spec fn channel_of(kind: WatchEventKind, id: Seq<char>) -> Option<Seq<char>> {
    match channel_prefix(kind) {
        Some(p) => Some(p + id),
        None => None,
    }
}

/// The channel name for `kind` and watcher `id`, if that kind is forwarded.
pub fn event_channel(kind: WatchEventKind, id: &str) -> (r: Option<String>)
    ensures
        match channel_of(kind, id@) {
            Some(c) => r matches Some(s) && s@ == c,
            None => r is None,
        },
{
    let prefix = match kind {
        WatchEventKind::Created => {
            proof {
                reveal_strlit("file-created-");
            }
            "file-created-"
        },
        WatchEventKind::Removed => {
            proof {
                reveal_strlit("file-deleted-");
            }
            "file-deleted-"
        },
        WatchEventKind::Modified => {
            proof {
                reveal_strlit("file-changed-");
            }
            "file-changed-"
        },
        WatchEventKind::Other => {
            return None;
        },
    };
    let mut s = String::from_str(prefix);
    s.append(id);
    assert(s@ =~= channel_of(kind, id@)->Some_0);
    Some(s)
}

/// The notifications for one change of `kind` reported by watcher `id` over
/// `paths`: one per path, in the order given, all on the watcher's channel
/// for that kind; none for a kind that is dropped.
pub fn notifications_for(id: &str, kind: WatchEventKind, paths: &Vec<String>) -> (r: Vec<
    Notification,
>)
    ensures
        channel_of(kind, id@) is None ==> r@.len() == 0,
        channel_of(kind, id@) is Some ==> r@.len() == paths@.len(),
        forall|i: int|
            #![trigger r@[i]]
            0 <= i < r@.len() ==> {
                &&& r@[i].channel@ == channel_of(kind, id@)->Some_0
                &&& r@[i].path@ == paths@[i]@
            },
{
    let mut out: Vec<Notification> = Vec::new();
    let channel = match event_channel(kind, id) {
        Some(c) => c,
        None => {
            return out;
        },
    };
    let mut i: usize = 0;
    while i < paths.len()
        invariant
            i <= paths@.len(),
            out@.len() == i,
            channel@ == channel_of(kind, id@)->Some_0,
            channel_of(kind, id@) is Some,
            forall|j: int|
                #![trigger out@[j]]
                0 <= j < i ==> {
                    &&& out@[j].channel@ == channel_of(kind, id@)->Some_0
                    &&& out@[j].path@ == paths@[j]@
                },
        decreases paths@.len() - i,
    {
        let n = Notification { channel: channel.clone(), path: paths[i].clone() };
        out.push(n);
        assert(out@[i as int].path@ == paths@[i as int]@);
        i = i + 1;
    }
    out
}

/// The text that uuid gives for a random (version 4) id built from `bytes`.
pub uninterp spec fn uuid_v4_text(bytes: Seq<u8>) -> Seq<char>;

/// A lowercase hexadecimal digit.
pub open spec fn is_lower_hex(c: char) -> bool {
    ('0' <= c && c <= '9') || ('a' <= c && c <= 'f')
}

/// The hyphenated lowercase form of a version 4 id: 36 characters, hyphens
/// at 8, 13, 18 and 23, the version digit `4` at 14, hex digits elsewhere.
pub open spec fn is_v4_text(s: Seq<char>) -> bool {
    &&& s.len() == 36
    &&& forall|i: int|
        0 <= i < 36 ==> if i == 8 || i == 13 || i == 18 || i == 23 {
            s[i] == '-'
        } else if i == 14 {
            s[i] == '4'
        } else {
            is_lower_hex(#[trigger] s[i])
        }
}

/// Relies on `getrandom::fill`: sixteen bytes from the system's random
/// source, or `None` where that source fails.
#[verifier::external_body]
fn random_bytes() -> (r: Option<[u8; 16]>) {
    let mut bytes = [0u8; 16];
    match getrandom::fill(&mut bytes) {
        Ok(()) => Some(bytes),
        Err(_) => None,
    }
}

/// Relies on `uuid::Builder::from_random_bytes(..).into_uuid()` and the
/// `Display` form of `Uuid`: the hyphenated lowercase text of the version 4
/// id made from `bytes`.
#[verifier::external_body]
fn uuid_text(bytes: [u8; 16]) -> (r: String)
    ensures
        r@ == uuid_v4_text(bytes@),
        is_v4_text(r@),
{
    uuid::Builder::from_random_bytes(bytes).into_uuid().to_string()
}

/// The active watches, each under its id, with the handle that keeps it alive.
/// Dropping a handle ends its watch.
pub struct WatchRegistry<W> {
    entries: Vec<(String, W)>,
    contents: Ghost<Map<Seq<char>, W>>,
}

impl<W> WatchRegistry<W> {
    /// The ids and handles of the active watches.
    pub closed spec fn view(&self) -> Map<Seq<char>, W> {
        self.contents@
    }

    /// The entries list each id once, and exactly the ids of the view.
    pub closed spec fn wf(&self) -> bool {
        Self::entries_match(self.entries@, self.contents@)
    }

    /// A registry with no watches.
    pub fn new() -> (r: WatchRegistry<W>)
        ensures
            r.wf(),
            r.view() == Map::<Seq<char>, W>::empty(),
    {
        WatchRegistry { entries: Vec::new(), contents: Ghost(Map::empty()) }
    }

    /// The number of active watches.
    pub fn len(&self) -> (r: usize)
        requires
            self.wf(),
        ensures
            r == self.view().dom().len(),
    {
        proof {
            self.lemma_dom_len();
        }
        self.entries.len()
    }

    proof fn lemma_dom_len(&self)
        requires
            self.wf(),
        ensures
            self.view().dom().finite(),
            self.view().dom().len() == self.entries@.len(),
    {
        let keys = self.entries@.map_values(|e: (String, W)| e.0@);
        assert(self.view().dom() =~= keys.to_set()) by {
            assert forall|k: Seq<char>| self.view().dom().contains(k) implies keys.to_set().contains(
                k,
            ) by {
                let i = choose|i: int| 0 <= i < self.entries@.len() && self.entries@[i].0@ == k;
                assert(keys[i] == k);
            }
        }
        assert(keys.no_duplicates()) by {
            assert forall|i: int, j: int| 0 <= i < keys.len() && 0 <= j < keys.len() && i != j implies keys[i]
                != keys[j] by {
                if i < j {
                    assert(self.entries@[i].0@ != self.entries@[j].0@);
                } else {
                    assert(self.entries@[j].0@ != self.entries@[i].0@);
                }
            }
        }
        keys.unique_seq_to_set();
    }

    /// The entries list each id once, and exactly the ids of `m`.
    pub closed spec fn entries_match(entries: Seq<(String, W)>, m: Map<Seq<char>, W>) -> bool {
        &&& forall|i: int, j: int|
            0 <= i < j < entries.len() ==> #[trigger] entries[i].0@ != #[trigger] entries[j].0@
        &&& forall|i: int|
            0 <= i < entries.len() ==> {
                &&& m.contains_key(#[trigger] entries[i].0@)
                &&& m[entries[i].0@] == entries[i].1
            }
        &&& forall|k: Seq<char>|
            #[trigger] m.contains_key(k) ==> exists|i: int| 0 <= i < entries.len() && entries[i].0@ == k
    }

    proof fn lemma_remove_keeps_wf(entries: Seq<(String, W)>, m: Map<Seq<char>, W>, i: int)
        requires
            Self::entries_match(entries, m),
            0 <= i < entries.len(),
        ensures
            Self::entries_match(entries.remove(i), m.remove(entries[i].0@)),
    {
        let e = entries.remove(i);
        let key = entries[i].0@;
        let m2 = m.remove(key);
        assert forall|a: int, b: int| 0 <= a < b < e.len() implies #[trigger] e[a].0@ != #[trigger] e[b].0@ by {
            let a0 = if a < i { a } else { a + 1 };
            let b0 = if b < i { b } else { b + 1 };
            assert(e[a] == entries[a0] && e[b] == entries[b0]);
            assert(entries[a0].0@ != entries[b0].0@);
        }
        assert forall|a: int| 0 <= a < e.len() implies m2.contains_key(#[trigger] e[a].0@) && m2[e[a].0@] == e[a].1 by {
            let a0 = if a < i { a } else { a + 1 };
            assert(e[a] == entries[a0]);
            if a0 < i {
                assert(entries[a0].0@ != entries[i].0@);
            } else {
                assert(entries[i].0@ != entries[a0].0@);
            }
        }
        assert forall|k: Seq<char>| #[trigger] m2.contains_key(k) implies exists|a: int| 0 <= a < e.len() && e[a].0@ == k by {
            let j = choose|j: int| 0 <= j < entries.len() && entries[j].0@ == k;
            if j < i {
                assert(e[j] == entries[j]);
            } else {
                assert(j != i);
                assert(e[j - 1] == entries[j]);
            }
        }
    }

    proof fn lemma_push_keeps_wf(entries: Seq<(String, W)>, m: Map<Seq<char>, W>, id: String, h: W)
        requires
            Self::entries_match(entries, m),
            !m.contains_key(id@),
        ensures
            Self::entries_match(entries.push((id, h)), m.insert(id@, h)),
    {
        let e = entries.push((id, h));
        let m2 = m.insert(id@, h);
        assert forall|a: int, b: int| 0 <= a < b < e.len() implies #[trigger] e[a].0@ != #[trigger] e[b].0@ by {
            assert(e[a] == entries[a]);
            if b < entries.len() {
                assert(e[b] == entries[b]);
            } else {
                assert(m.contains_key(entries[a].0@));
            }
        }
        assert forall|a: int| 0 <= a < e.len() implies m2.contains_key(#[trigger] e[a].0@) && m2[e[a].0@] == e[a].1 by {
            if a < entries.len() {
                assert(e[a] == entries[a]);
                assert(m.contains_key(entries[a].0@));
            }
        }
        assert forall|k: Seq<char>| #[trigger] m2.contains_key(k) implies exists|a: int| 0 <= a < e.len() && e[a].0@ == k by {
            if k == id@ {
                assert(e[entries.len() as int].0@ == k);
            } else {
                let j = choose|j: int| 0 <= j < entries.len() && entries[j].0@ == k;
                assert(e[j] == entries[j]);
            }
        }
    }

    /// Position of the entry for `id`, if there is one.
    fn find(&self, id: &String) -> (r: Option<usize>)
        requires
            self.wf(),
        ensures
            match r {
                Some(i) => i < self.entries@.len() && self.entries@[i as int].0@ == id@,
                None => !self.view().contains_key(id@),
            },
    {
        let mut i: usize = 0;
        while i < self.entries.len()
            invariant
                self.wf(),
                i <= self.entries@.len(),
                forall|j: int| 0 <= j < i ==> self.entries@[j].0@ != id@,
            decreases self.entries@.len() - i,
        {
            if self.entries[i].0 == *id {
                return Some(i);
            }
            i = i + 1;
        }
        None
    }

    /// Whether a watch is registered under `id`.
    pub fn contains(&self, id: &String) -> (r: bool)
        requires
            self.wf(),
        ensures
            r == self.view().contains_key(id@),
    {
        match self.find(id) {
            Some(i) => {
                assert(self.view().contains_key(self.entries@[i as int].0@));
                true
            },
            None => false,
        }
    }

    /// Registers the watch `handle` under `id`. A handle already there under
    /// that id is handed back, so that dropping it ends its watch.
    pub fn insert(&mut self, id: String, handle: W) -> (r: Option<W>)
        requires
            old(self).wf(),
        ensures
            final(self).wf(),
            final(self).view() == old(self).view().insert(id@, handle),
            old(self).view().contains_key(id@) ==> r == Some(old(self).view()[id@]),
            !old(self).view().contains_key(id@) ==> r is None,
    {
        let displaced = match self.find(&id) {
            Some(i) => {
                let (_, h) = self.entries.remove(i);
                self.contents = Ghost(self.contents@.remove(id@));
                proof {
                    Self::lemma_remove_keeps_wf(old(self).entries@, old(self).contents@, i as int);
                }
                Some(h)
            },
            None => None,
        };
        proof {
            Self::lemma_push_keeps_wf(self.entries@, self.contents@, id, handle);
        }
        let ghost key = id@;
        self.entries.push((id, handle));
        self.contents = Ghost(self.contents@.insert(key, handle));
        assert(self.contents@ =~= old(self).contents@.insert(key, handle));
        displaced
    }

    /// Removes the watch registered under `id` and hands back its handle;
    /// dropping the handle ends the watch. An unknown id is refused.
    pub fn remove(&mut self, id: &String) -> (r: Result<W, FsError>)
        requires
            old(self).wf(),
        ensures
            final(self).wf(),
            old(self).view().contains_key(id@) ==> r == Ok::<W, FsError>(old(self).view()[id@])
                && final(self).view() == old(self).view().remove(id@),
            !old(self).view().contains_key(id@) ==> r == Err::<W, FsError>(FsError::WatcherNotFound)
                && final(self).view() == old(self).view(),
    {
        match self.find(id) {
            Some(i) => {
                let (_, h) = self.entries.remove(i);
                self.contents = Ghost(old(self).contents@.remove(id@));
                proof {
                    Self::lemma_remove_keeps_wf(old(self).entries@, old(self).contents@, i as int);
                }
                Ok(h)
            },
            None => Err(FsError::WatcherNotFound),
        }
    }

    /// `id`, if no watch is registered under it yet.
    pub fn claim_id(&self, id: String) -> (r: Option<String>)
        requires
            self.wf(),
        ensures
            self.view().contains_key(id@) ==> r is None,
            !self.view().contains_key(id@) ==> (r matches Some(s) && s@ == id@),
    {
        if self.contains(&id) {
            None
        } else {
            Some(id)
        }
    }

    /// The id made from `drawn`, the outcome of drawing sixteen random bytes:
    /// a failed draw is refused, and so is an id already registered.
    pub fn id_from_draw(&self, drawn: Option<[u8; 16]>) -> (r: Result<String, FsError>)
        requires
            self.wf(),
        ensures
            match drawn {
                None => r == Err::<String, FsError>(FsError::RandomUnavailable),
                Some(b) => if self.view().contains_key(uuid_v4_text(b@)) {
                    r == Err::<String, FsError>(FsError::IdTaken)
                } else {
                    r matches Ok(id) && id@ == uuid_v4_text(b@)
                },
            },
            drawn matches Some(b) ==> is_v4_text(uuid_v4_text(b@)),
    {
        match drawn {
            None => Err(FsError::RandomUnavailable),
            Some(b) => match self.claim_id(uuid_text(b)) {
                Some(id) => Ok(id),
                None => Err(FsError::IdTaken),
            },
        }
    }

    /// A new random id under which no watch is registered yet. It fails only
    /// where the system's random source fails, or where the id drawn is
    /// already registered, which cannot happen in an empty registry.
    pub fn fresh_id(&self) -> (r: Result<String, FsError>)
        requires
            self.wf(),
        ensures
            r matches Ok(id) ==> !self.view().contains_key(id@) && is_v4_text(id@),
            r is Err ==> r == Err::<String, FsError>(FsError::RandomUnavailable) || r == Err::<
                String,
                FsError,
            >(FsError::IdTaken),
            r == Err::<String, FsError>(FsError::IdTaken) ==> exists|k: Seq<char>|
                self.view().contains_key(k) && is_v4_text(k),
    {
        let drawn = random_bytes();
        self.id_from_draw(drawn)
    }
}

} // verus!
