//! The tab bookkeeping of the Servo-backed engine: which tabs are open, in
//! what order, which one is active, and what the tab strip shows for each.
//!
//! The engine keeps one web view per tab beside this list; the list decides,
//! and tells the engine which view to create, drop or focus.
use vstd::prelude::*;

use crate::chars::{push_char, starts_with_seq, trim, trim_seq};

verus! {

/// The open tabs, by id, in tab-strip order, and the active one.
pub struct TabList {
    ids: Vec<u64>,
    active: usize,
    next_id: u64,
}

pub struct TabListView {
    pub ids: Seq<u64>,
    pub active: nat,
    pub next_id: u64,
}

impl View for TabList {
    type V = TabListView;

    closed spec fn view(&self) -> TabListView {
        TabListView { ids: self.ids@, active: self.active as nat, next_id: self.next_id }
    }
}

impl TabListView {
    /// Ids increase along the strip and are all below the next id handed out;
    /// the active index is a tab's, or 0 when there is none.
    pub open spec fn well_formed(self) -> bool {
        &&& forall|i: int, j: int| 0 <= i < j < self.ids.len() ==> self.ids[i] < self.ids[j]
        &&& forall|i: int| 0 <= i < self.ids.len() ==> #[trigger] self.ids[i] < self.next_id
        &&& self.next_id >= 1
        &&& if self.ids.len() == 0 {
            self.active == 0
        } else {
            self.active < self.ids.len()
        }
    }
}

impl TabList {
    /// Every tab list is well formed.
    #[verifier::type_invariant]
    spec fn is_consistent(self) -> bool {
        self@.well_formed()
    }

    /// No tabs; the first tab opened gets id 1.
    pub fn new() -> (r: TabList)
        ensures
            r@.ids.len() == 0,
            r@.active == 0,
            r@.next_id == 1,
            r@.well_formed(),
    {
        TabList { ids: Vec::new(), active: 0, next_id: 1 }
    }

    pub fn tab_count(&self) -> (r: usize)
        ensures
            r == self@.ids.len(),
    {
        self.ids.len()
    }

    pub fn active_index(&self) -> (r: usize)
        ensures
            r == self@.active,
    {
        self.active
    }

    /// The id of the tab at `index`.
    pub fn id_at(&self, index: usize) -> (r: Option<u64>)
        ensures
            r == if index < self@.ids.len() {
                Some(self@.ids[index as int])
            } else {
                None::<u64>
            },
    {
        if index < self.ids.len() {
            Some(self.ids[index])
        } else {
            None
        }
    }

    /// The active tab's id, when there is a tab.
    pub fn active_id(&self) -> (r: Option<u64>)
        ensures
            r == if self@.ids.len() > 0 {
                Some(self@.ids[self@.active as int])
            } else {
                None::<u64>
            },
    {
        proof {
            use_type_invariant(&*self);
        }
        self.id_at(self.active)
    }

    /// Opens a tab at the end of the strip and returns its id; `focus` makes it
    /// the active tab.
    pub fn open(&mut self, focus: bool) -> (id: u64)
        requires
            old(self)@.next_id < u64::MAX,
        ensures
            id == old(self)@.next_id,
            final(self)@.ids == old(self)@.ids.push(id),
            final(self)@.next_id == id + 1,
            final(self)@.active == if focus {
                old(self)@.ids.len()
            } else {
                old(self)@.active
            },
            final(self)@.well_formed(),
    {
        proof {
            use_type_invariant(&*self);
        }
        let (mut ids, active, next_id) = self.take_parts();
        let id = next_id;
        ids.push(id);
        let active = if focus {
            ids.len() - 1
        } else {
            active
        };
        *self = TabList { ids, active, next_id: id + 1 };
        id
    }

    /// Makes the tab at `index` active; false, changing nothing, when there is
    /// no such tab.
    pub fn select(&mut self, index: usize) -> (selected: bool)
        ensures
            selected == (index < old(self)@.ids.len()),
            final(self)@.ids == old(self)@.ids,
            final(self)@.next_id == old(self)@.next_id,
            final(self)@.active == if selected {
                index as nat
            } else {
                old(self)@.active
            },
            final(self)@.well_formed(),
    {
        proof {
            use_type_invariant(&*self);
        }
        if index >= self.ids.len() {
            return false;
        }
        self.active = index;
        true
    }

    /// Closes the tab with `id`, returning where it stood; the active index
    /// stays put unless it is now past the end. Nothing changes when no tab has
    /// that id.
    pub fn close(&mut self, id: u64) -> (closed: Option<usize>)
        ensures
            final(self)@.well_formed(),
            final(self)@.next_id == old(self)@.next_id,
            match closed {
                Some(index) => {
                    &&& index < old(self)@.ids.len()
                    &&& old(self)@.ids[index as int] == id
                    &&& final(self)@.ids == old(self)@.ids.remove(index as int)
                    &&& final(self)@.active == if old(self)@.active < final(self)@.ids.len() {
                        old(self)@.active
                    } else if final(self)@.ids.len() == 0 {
                        0
                    } else {
                        (final(self)@.ids.len() - 1) as nat
                    }
                },
                None => {
                    &&& !old(self)@.ids.contains(id)
                    &&& final(self)@ == old(self)@
                },
            },
    {
        proof {
            use_type_invariant(&*self);
        }
        let mut index: usize = 0;
        while index < self.ids.len()
            invariant
                self@ == old(self)@,
                self@.well_formed(),
                index <= self.ids@.len(),
                forall|j: int| 0 <= j < index ==> self.ids@[j] != id,
            decreases self.ids@.len() - index,
        {
            if self.ids[index] == id {
                let (mut ids, active, next_id) = self.take_parts();
                let ghost before = ids@;
                ids.remove(index);
                let last = if ids.len() > 0 {
                    ids.len() - 1
                } else {
                    0
                };
                let active = if active > last {
                    last
                } else {
                    active
                };
                assert forall|i: int, j: int| 0 <= i < j < ids@.len() implies ids@[i] < ids@[j] by {
                    let bi = if i < index {
                        i
                    } else {
                        i + 1
                    };
                    let bj = if j < index {
                        j
                    } else {
                        j + 1
                    };
                    assert(ids@[i] == before[bi]);
                    assert(ids@[j] == before[bj]);
                }
                assert forall|i: int| 0 <= i < ids@.len() implies #[trigger] ids@[i] < next_id by {
                    if i < index {
                        assert(ids@[i] == before[i]);
                    } else {
                        assert(ids@[i] == before[i + 1]);
                    }
                }
                *self = TabList { ids, active, next_id };
                return Some(index);
            }
            index = index + 1;
        }
        None
    }

    /// Moves the fields out, leaving an empty list behind.
    fn take_parts(&mut self) -> (parts: (Vec<u64>, usize, u64))
        ensures
            (TabListView { ids: parts.0@, active: parts.1 as nat, next_id: parts.2 }) == old(self)@,
            old(self)@.well_formed(),
    {
        proof {
            use_type_invariant(&*self);
        }
        let mut taken = TabList { ids: Vec::new(), active: 0, next_id: 1 };
        std::mem::swap(self, &mut taken);
        proof {
            use_type_invariant(&taken);
        }
        let TabList { ids, active, next_id } = taken;
        (ids, active, next_id)
    }
}

/// Opening a tab hands out an id no open tab has.
pub proof fn lemma_opened_ids_are_fresh(tabs: TabListView)
    requires
        tabs.well_formed(),
    ensures
        !tabs.ids.contains(tabs.next_id),
{
}

/// After a tab is closed, no tab has its id.
pub proof fn lemma_closed_id_is_gone(tabs: TabListView, index: int)
    requires
        tabs.well_formed(),
        0 <= index < tabs.ids.len(),
    ensures
        !tabs.ids.remove(index).contains(tabs.ids[index]),
{
    let removed = tabs.ids.remove(index);
    assert forall|i: int| 0 <= i < removed.len() implies removed[i] != tabs.ids[index] by {
        if i < index {
            assert(removed[i] == tabs.ids[i]);
        } else {
            assert(removed[i] == tabs.ids[i + 1]);
        }
    }
}

/// Closing the tab just opened gives back the strip as it was before.
pub proof fn lemma_close_undoes_open(tabs: TabListView)
    requires
        tabs.well_formed(),
    ensures
        tabs.ids.push(tabs.next_id).remove(tabs.ids.len() as int) == tabs.ids,
{
    assert(tabs.ids.push(tabs.next_id).remove(tabs.ids.len() as int) =~= tabs.ids);
}

/// What the tab strip shows: a title that is not blank, else the URL, else
/// `New tab`.
pub open spec fn tab_label_seq(title: Option<Seq<char>>, url: Seq<char>) -> Seq<char> {
    match title {
        Some(t) => if trim_seq(t).len() != 0 {
            t
        } else if url.len() == 0 {
            "New tab"@
        } else {
            url
        },
        None => if url.len() == 0 {
            "New tab"@
        } else {
            url
        },
    }
}

/// The label the tab strip shows for a tab.
pub fn tab_label(title: Option<&str>, url: &str) -> (r: String)
    ensures
        r@ == tab_label_seq(
            match title {
                Some(t) => Some(t@),
                None => None,
            },
            url@,
        ),
{
    if let Some(title) = title {
        if trim(title).unicode_len() != 0 {
            return title.to_owned();
        }
    }
    if url.unicode_len() == 0 {
        "New tab".to_owned()
    } else {
        url.to_owned()
    }
}

/// A tab is shown as secure when its URL is `https:`.
pub fn is_secure(url: &str) -> (r: bool)
    ensures
        r == starts_with_seq(url@, seq!['h', 't', 't', 'p', 's', ':']),
{
    let mut prefix = String::new();
    push_char(&mut prefix, 'h');
    push_char(&mut prefix, 't');
    push_char(&mut prefix, 't');
    push_char(&mut prefix, 'p');
    push_char(&mut prefix, 's');
    push_char(&mut prefix, ':');
    assert(prefix@ =~= seq!['h', 't', 't', 'p', 's', ':']);
    crate::chars::starts_with(url, prefix.as_str())
}

/// The window title: the active tab's label and the browser's name.
pub fn window_title(label: Option<&str>) -> (r: String)
    ensures
        r@ == match label {
            Some(l) => l@ + " — What-A-Browser"@,
            None => "What-A-Browser"@,
        },
{
    match label {
        Some(label) => crate::chars::concat(label, " — What-A-Browser"),
        None => "What-A-Browser".to_owned(),
    }
}

} // verus!
