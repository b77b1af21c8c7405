//! Small sets that the viewer keeps.
use vstd::prelude::*;

use crate::path::{components, same_parts, split_path, ComponentView};
use crate::seqs::views;

verus! {

/// The two views of the workspace.
#[derive(Clone, Copy, Debug, PartialEq, Eq, Structural)]
pub enum Tab {
    Changes,
    Files,
}

/// What has been asked for and not yet arrived: in which tab, of which item, and
/// under which generation.
pub type Request = (Tab, usize, u64);

/// A set of requests.
#[derive(Debug)]
pub struct RequestSet {
    items: Vec<(Tab, usize, u64)>,
}

impl View for RequestSet {
    type V = Set<Request>;

    closed spec fn view(&self) -> Set<Request> {
        Set::new(|item: Request| self.items@.contains(item))
    }
}

impl RequestSet {
    pub fn new() -> (set: RequestSet)
        ensures
            set@ == Set::<Request>::empty(),
    {
        let set = RequestSet { items: Vec::new() };
        proof {
            assert(set@ =~= Set::empty());
        }
        set
    }

    pub fn clear(&mut self)
        ensures
            final(self)@ == Set::<Request>::empty(),
    {
        self.items.clear();
        proof {
            assert(self@ =~= Set::empty());
        }
    }

    fn position(&self, item: Request) -> (index: usize)
        ensures
            index <= self.items@.len(),
            index < self.items@.len() ==> self.items@[index as int] == item,
            index == self.items@.len() ==> !self.items@.contains(item),
    {
        let mut i: usize = 0;
        while i < self.items.len()
            invariant
                i <= self.items@.len(),
                forall|j: int| 0 <= j < i ==> self.items@[j] != item,
            decreases self.items@.len() - i,
        {
            if self.items[i].0 == item.0 && self.items[i].1 == item.1 && self.items[i].2 == item.2 {
                return i;
            }
            i += 1;
        }
        i
    }

    pub fn contains(&self, item: Request) -> (found: bool)
        ensures
            found == self@.contains(item),
    {
        let index = self.position(item);
        proof {
            if index < self.items@.len() {
                assert(self.items@.contains(self.items@[index as int]));
            }
        }
        index < self.items.len()
    }

    pub fn insert(&mut self, item: Request)
        ensures
            final(self)@ == old(self)@.insert(item),
    {
        let ghost before = self.items@;
        let ghost set = self@;
        self.items.push(item);
        proof {
            assert forall|x: Request| self@.contains(x) <==> set.insert(item).contains(x) by {
                if before.contains(x) {
                    let k = before.index_of(x);
                    assert(self.items@[k] == x);
                }
                assert(self.items@[before.len() as int] == item);
                if self.items@.contains(x) {
                    let k = self.items@.index_of(x);
                    if k < before.len() {
                        assert(before[k] == x);
                    }
                }
            }
            assert(self@ =~= set.insert(item));
        }
    }

    pub fn remove(&mut self, item: Request)
        ensures
            final(self)@ == old(self)@.remove(item),
    {
        let ghost set = self@;
        let mut index = self.position(item);
        while index < self.items.len()
            invariant
                index <= self.items@.len(),
                index < self.items@.len() ==> self.items@[index as int] == item,
                index == self.items@.len() ==> !self.items@.contains(item),
                forall|x: Request| x != item ==> self.items@.contains(x) == set.contains(x),
            decreases self.items@.len(),
        {
            let ghost before = self.items@;
            let _gone = self.items.remove(index);
            proof {
                assert forall|x: Request| x != item implies self.items@.contains(x)
                    == set.contains(x) by {
                    if before.contains(x) {
                        let k = before.index_of(x);
                        if k < index {
                            assert(self.items@[k] == x);
                        } else {
                            assert(self.items@[k - 1] == x);
                        }
                    }
                    if self.items@.contains(x) {
                        let k = self.items@.index_of(x);
                        if k < index {
                            assert(before[k] == x);
                        } else {
                            assert(before[k + 1] == x);
                        }
                    }
                }
            }
            index = self.position(item);
        }
        proof {
            assert(self@ =~= set.remove(item));
        }
    }
}

/// A folder of one of the tabs.
pub type Group = (Tab, Seq<ComponentView>);

/// A set of folders.
#[derive(Debug)]
pub struct GroupSet {
    items: Vec<GroupItem>,
}

#[derive(Debug)]
struct GroupItem {
    tab: Tab,
    path: Vec<u8>,
}

spec fn group_of_item(item: GroupItem) -> Group {
    (item.tab, components(item.path@))
}

spec fn groups_of(items: Seq<GroupItem>) -> Seq<Group> {
    Seq::new(items.len(), |i: int| group_of_item(items[i]))
}

impl View for GroupSet {
    type V = Set<Group>;

    closed spec fn view(&self) -> Set<Group> {
        Set::new(|group: Group| groups_of(self.items@).contains(group))
    }
}

impl GroupSet {
    pub fn new() -> (set: GroupSet)
        ensures
            set@ == Set::<Group>::empty(),
    {
        let set = GroupSet { items: Vec::new() };
        proof {
            assert(set@ =~= Set::empty());
        }
        set
    }

    fn position(&self, tab: Tab, path: &[u8]) -> (index: usize)
        ensures
            index <= self.items@.len(),
            index < self.items@.len() ==> groups_of(self.items@)[index as int] == (
                tab,
                components(path@),
            ),
            index == self.items@.len() ==> !groups_of(self.items@).contains(
                (tab, components(path@)),
            ),
    {
        let parts = split_path(path);
        let ghost all = groups_of(self.items@);
        let mut i: usize = 0;
        while i < self.items.len()
            invariant
                i <= self.items@.len(),
                all == groups_of(self.items@),
                views(parts@) == components(path@),
                forall|j: int| 0 <= j < i ==> all[j] != (tab, components(path@)),
            decreases self.items@.len() - i,
        {
            if self.items[i].tab == tab {
                let other = split_path(&self.items[i].path);
                if same_parts(&other, &parts) {
                    return i;
                }
            }
            i += 1;
        }
        i
    }

    pub fn contains(&self, tab: Tab, path: &[u8]) -> (found: bool)
        ensures
            found == self@.contains((tab, components(path@))),
    {
        let index = self.position(tab, path);
        proof {
            let all = groups_of(self.items@);
            if index < self.items@.len() {
                assert(all.contains(all[index as int]));
            }
        }
        index < self.items.len()
    }

    /// Takes the folder out where it is in the set, and puts it in where it is
    /// not.
    pub fn toggle(&mut self, tab: Tab, path: &[u8])
        ensures
            final(self)@ == toggled(old(self)@, (tab, components(path@))),
    {
        let ghost key = (tab, components(path@));
        let ghost set = self@;
        let mut index = self.position(tab, path);
        if index == self.items.len() {
            let ghost before = groups_of(self.items@);
            let copy = crate::seqs::copy_bytes(path, 0, path.len());
            proof {
                assert(copy@ =~= path@);
            }
            self.items.push(GroupItem { tab, path: copy });
            proof {
                let after = groups_of(self.items@);
                assert(after =~= before.push(key));
                assert forall|x: Group| self@.contains(x) <==> set.insert(key).contains(x) by {
                    if before.contains(x) {
                        assert(after[before.index_of(x)] == x);
                    }
                    assert(after[before.len() as int] == key);
                    if after.contains(x) {
                        let k = after.index_of(x);
                        if k < before.len() {
                            assert(before[k] == x);
                        }
                    }
                }
                assert(self@ =~= set.insert(key));
            }
            return;
        }
        proof {
            assert(groups_of(self.items@).contains(groups_of(self.items@)[index as int]));
        }
        while index < self.items.len()
            invariant
                index <= self.items@.len(),
                key == (tab, components(path@)),
                set.contains(key),
                index < self.items@.len() ==> groups_of(self.items@)[index as int] == key,
                index == self.items@.len() ==> !groups_of(self.items@).contains(key),
                forall|x: Group| x != key ==> groups_of(self.items@).contains(x) == set.contains(x),
            decreases self.items@.len(),
        {
            let ghost before = groups_of(self.items@);
            let _gone = self.items.remove(index);
            proof {
                let after = groups_of(self.items@);
                assert(after =~= before.remove(index as int));
                assert forall|x: Group| x != key implies after.contains(x) == set.contains(x) by {
                    if before.contains(x) {
                        let k = before.index_of(x);
                        if k < index {
                            assert(after[k] == x);
                        } else {
                            assert(after[k - 1] == x);
                        }
                    }
                    if after.contains(x) {
                        let k = after.index_of(x);
                        if k < index {
                            assert(before[k] == x);
                        } else {
                            assert(before[k + 1] == x);
                        }
                    }
                }
            }
            index = self.position(tab, path);
        }
        proof {
            assert(self@ =~= set.remove(key));
        }
    }
}

/// The set without the folder where it holds it, with it where it does not.
pub open spec fn toggled(set: Set<Group>, group: Group) -> Set<Group> {
    if set.contains(group) {
        set.remove(group)
    } else {
        set.insert(group)
    }
}

/// Toggling a folder twice changes nothing.
pub proof fn law_toggling_twice_restores(set: Set<Group>, group: Group)
    ensures
        toggled(toggled(set, group), group) == set,
{
    assert(toggled(toggled(set, group), group) =~= set);
}

} // verus!
