//! The session state machine: the ordered set list, the selected set-list
//! index, and the two presentation channels (Preview and Direct), each with
//! its own screen mode. Every operation resolves an inapplicable request as
//! a silent no-op — a live tool must never block the operator.

use vstd::prelude::*;
use crate::song::{nav_applied, NavOp, Song};

verus! {

/// One of the two presentation channels: Preview stages content, Direct is
/// what the audience display renders.
#[derive(Debug, Clone, Copy, PartialEq, Eq, Structural)]
pub enum Content {
    Preview,
    Direct,
}

impl Content {
    pub open spec fn spec_index(&self) -> int {
        match self {
            Content::Preview => 0,
            Content::Direct => 1,
        }
    }

    /// The channel's slot in per-channel state arrays.
    pub fn index(&self) -> (i: usize)
        ensures
            i as int == self.spec_index(),
            i < 2,
    {
        match self {
            Content::Preview => 0,
            Content::Direct => 1,
        }
    }
}

/// What a channel shows: a dark screen, a white screen, or song content.
/// Independent of whether a song is loaded.
#[derive(Debug, Clone, Copy, PartialEq, Eq, Structural)]
pub enum Status {
    DarkScreen,
    WhiteScreen,
    Song,
}

/// How the catalog index is sorted and searched. The core only stores and
/// hands over the tag; the catalog store interprets it.
#[derive(Debug, Clone, Copy, PartialEq, Eq, Structural)]
pub enum Sort {
    Default,
    Title,
    Songbook,
    Author,
}

impl Sort {
    /// Every sort order, in selection order.
    pub fn all() -> (r: Vec<Sort>)
        ensures
            r@ == seq![Sort::Default, Sort::Title, Sort::Songbook, Sort::Author],
    {
        let mut v: Vec<Sort> = Vec::new();
        v.push(Sort::Default);
        v.push(Sort::Title);
        v.push(Sort::Songbook);
        v.push(Sort::Author);
        assert(v@ =~= seq![Sort::Default, Sort::Title, Sort::Songbook, Sort::Author]);
        v
    }
}

/// The running session: the set list, the selected index, the Preview
/// channel's own song, and one screen mode per channel. The Direct channel's
/// song is the selected set-list entry.
#[derive(Debug, Clone)]
pub struct Service {
    pub list: Vec<Song>,
    pub current: usize,
    pub preview: Option<Song>,
    pub status: [Status; 2],
}

impl Service {
    /// Every held song keeps its cursor invariant, and the selected index is
    /// meaningful whenever the set list is non-empty.
    pub open spec fn wf(&self) -> bool {
        &&& (self.list@.len() == 0 ==> self.current == 0)
        &&& (self.list@.len() > 0 ==> self.current < self.list@.len())
        &&& (forall|i: int| 0 <= i < self.list@.len() ==> (#[trigger] self.list@[i]).wf())
        &&& (self.preview matches Some(s) ==> s.wf())
    }

    /// A fresh session: empty set list, nothing staged, both channels dark.
    pub fn new() -> (s: Service)
        ensures
            s.list@.len() == 0,
            s.current == 0,
            s.preview is None,
            s.status@[0] == Status::DarkScreen,
            s.status@[1] == Status::DarkScreen,
            s.wf(),
    {
        Service {
            list: Vec::with_capacity(10),
            current: 0,
            preview: None,
            status: [Status::DarkScreen, Status::DarkScreen],
        }
    }

    /// Hands a song (or nothing) to a channel: Preview replaces its own
    /// song; Direct appends to the set list. Loading into Preview never
    /// touches the set list.
    pub fn add(&mut self, song: Option<Song>, content: Content)
        requires
            old(self).wf(),
            song matches Some(s) ==> s.wf(),
        ensures
            final(self).wf(),
            final(self).status == old(self).status,
            match content {
                Content::Preview => {
                    &&& final(self).preview == song
                    &&& final(self).list == old(self).list
                    &&& final(self).current == old(self).current
                },
                Content::Direct => {
                    &&& final(self).preview == old(self).preview
                    &&& final(self).current == old(self).current
                    &&& final(self).list@ == (match song {
                        Some(s) => old(self).list@.push(s),
                        None => old(self).list@,
                    })
                },
            },
    {
        match content {
            Content::Preview => {
                self.preview = song;
            },
            Content::Direct => {
                self.push_maybe(song);
            },
        }
    }

    /// Appends a song to the end of the set list; appending nothing leaves
    /// the list unchanged.
    pub fn push_maybe(&mut self, song: Option<Song>)
        requires
            old(self).wf(),
            song matches Some(s) ==> s.wf(),
        ensures
            final(self).wf(),
            final(self).list@ == (match song {
                Some(s) => old(self).list@.push(s),
                None => old(self).list@,
            }),
            final(self).current == old(self).current,
            final(self).preview == old(self).preview,
            final(self).status == old(self).status,
    {
        if let Some(song) = song {
            self.list.push(song);
        }
    }

    /// Selects set-list entry `index` iff it exists; out-of-range requests
    /// leave the selection unchanged. Selection alone does not change what
    /// any channel shows.
    pub fn set_current_song(&mut self, index: usize)
        requires
            old(self).wf(),
        ensures
            final(self).wf(),
            final(self).current == (if index < old(self).list@.len() {
                index as int
            } else {
                old(self).current as int
            }),
            final(self).list == old(self).list,
            final(self).preview == old(self).preview,
            final(self).status == old(self).status,
    {
        if index < self.list.len() {
            self.current = index;
        }
    }

    /// The selected set-list index, meaningful only when the list is
    /// non-empty.
    pub fn current_song_index(&self) -> (r: Option<usize>)
        ensures
            r == (if self.list@.len() > 0 {
                Some(self.current)
            } else {
                None::<usize>
            }),
    {
        if !self.list.is_empty() {
            Some(self.current)
        } else {
            None
        }
    }

    /// The song a channel currently addresses: for Direct, the selected
    /// set-list entry if the list is non-empty; for Preview, its own song.
    pub fn current_song(&self, content: Content) -> (r: Option<&Song>)
        requires
            self.wf(),
        ensures
            match content {
                Content::Direct => {
                    if self.list@.len() > 0 {
                        r matches Some(s) && *s == self.list@[self.current as int]
                    } else {
                        r is None
                    }
                },
                Content::Preview => {
                    match self.preview {
                        Some(p) => r matches Some(s) && *s == p,
                        None => r is None,
                    }
                },
            },
    {
        match content {
            Content::Direct => {
                if !self.list.is_empty() {
                    Some(&self.list[self.current])
                } else {
                    None
                }
            },
            Content::Preview => self.preview.as_ref(),
        }
    }

    /// A mutable borrow of the song a channel addresses, if any. The final
    /// state of the service reflects whatever the caller does through the
    /// borrow; everything else is untouched.
    pub fn current_song_mut(&mut self, content: Content) -> (r: Option<&mut Song>)
        requires
            old(self).wf(),
        ensures
            final(self).status == old(self).status,
            match content {
                Content::Direct => {
                    if old(self).list@.len() > 0 {
                        &&& r matches Some(song)
                            && *song == old(self).list@[old(self).current as int]
                            && final(self).list@ == old(self).list@.update(
                                old(self).current as int,
                                *final(song),
                            )
                        &&& final(self).current == old(self).current
                        &&& final(self).preview == old(self).preview
                    } else {
                        r is None && *final(self) == *old(self)
                    }
                },
                Content::Preview => {
                    match old(self).preview {
                        Some(p) => r matches Some(song)
                            && *song == p
                            && final(self).preview == Some(*final(song))
                            && final(self).list == old(self).list
                            && final(self).current == old(self).current,
                        None => r is None && *final(self) == *old(self),
                    }
                },
            },
    {
        match content {
            Content::Direct => {
                if !self.list.is_empty() {
                    let idx = self.current;
                    Some(vstd::std_specs::vec::vec_index_mut(&mut self.list, idx))
                } else {
                    None
                }
            },
            Content::Preview => {
                match &mut self.preview {
                    Some(song) => Some(song),
                    None => None,
                }
            },
        }
    }

    /// Applies one navigation operation to the song the channel addresses;
    /// a channel with no song is a no-op.
    pub fn change(&mut self, content: Content, op: NavOp)
        requires
            old(self).wf(),
        ensures
            final(self).wf(),
            final(self).status == old(self).status,
            match content {
                Content::Direct => {
                    &&& final(self).preview == old(self).preview
                    &&& final(self).current == old(self).current
                    &&& final(self).list@ == (if old(self).list@.len() > 0 {
                        old(self).list@.update(
                            old(self).current as int,
                            nav_applied(old(self).list@[old(self).current as int], op),
                        )
                    } else {
                        old(self).list@
                    })
                },
                Content::Preview => {
                    &&& final(self).list == old(self).list
                    &&& final(self).current == old(self).current
                    &&& final(self).preview == (match old(self).preview {
                        Some(p) => Some(nav_applied(p, op)),
                        None => None::<Song>,
                    })
                },
            },
    {
        match content {
            Content::Direct => {
                if !self.list.is_empty() {
                    let idx = self.current;
                    let song = vstd::std_specs::vec::vec_index_mut(&mut self.list, idx);
                    song.apply(op);
                    assert(final(self).list@ =~= old(self).list@.update(
                        old(self).current as int,
                        nav_applied(old(self).list@[old(self).current as int], op),
                    ));
                }
            },
            Content::Preview => {
                match &mut self.preview {
                    Some(song) => {
                        song.apply(op);
                    },
                    None => {},
                }
            },
        }
    }

    /// Overwrites a channel's screen mode, unconditionally.
    pub fn set_mode(&mut self, content: Content, mode: Status)
        ensures
            final(self).list == old(self).list,
            final(self).current == old(self).current,
            final(self).preview == old(self).preview,
            final(self).status@ == old(self).status@.update(content.spec_index(), mode),
            old(self).wf() ==> final(self).wf(),
    {
        let i = content.index();
        if i == 0 {
            self.status = [mode, self.status[1]];
        } else {
            self.status = [self.status[0], mode];
        }
        assert(final(self).status@ =~= old(self).status@.update(content.spec_index(), mode));
    }

    /// A channel's screen mode.
    pub fn mode(&self, content: Content) -> (r: Status)
        ensures
            r == self.status@[content.spec_index()],
    {
        self.status[content.index()]
    }

    /// Gives up the set list, in order.
    pub fn into_songs(self) -> (r: Vec<Song>)
        ensures
            r == self.list,
    {
        self.list
    }
}

impl Default for Service {
    /// A fresh session, as `Service::new` builds it.
    fn default() -> (s: Self)
        ensures
            s.list@.len() == 0,
            s.current == 0,
            s.preview is None,
            s.status@[0] == Status::DarkScreen,
            s.status@[1] == Status::DarkScreen,
            s.wf(),
    {
        Service::new()
    }
}

impl From<Vec<Song>> for Service {
    /// A session whose set list is `value`, with the first entry selected,
    /// nothing staged, and both channels dark.
    fn from(value: Vec<Song>) -> (s: Self) {
        Service {
            list: value,
            current: 0,
            preview: None,
            status: [Status::DarkScreen, Status::DarkScreen],
        }
    }
}

impl vstd::std_specs::convert::FromSpecImpl<Vec<Song>> for Service {
    open spec fn obeys_from_spec() -> bool {
        true
    }

    open spec fn from_spec(v: Vec<Song>) -> Service {
        Service {
            list: v,
            current: 0,
            preview: None,
            status: [Status::DarkScreen, Status::DarkScreen],
        }
    }
}

} // verus!
