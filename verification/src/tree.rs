//! The tree of playlists: every playlist by ID, the ordered list of
//! top-level playlists, and each playlist's ordered children. The functions
//! here keep the tree in memory; the caller records what they report as
//! changed in the database.

use vstd::prelude::*;
use crate::playlist::{Playlist, PlaylistView, PlaylistID, Playmode, Column, columns_view, sort_order_view,
    default_columns, default_sort_order};
use crate::logical::SongID;

verus! {

broadcast use vstd::seq_lib::group_to_multiset_ensures;

/// All the playlists, and the order of the top-level ones.
pub struct PlaylistTree {
    playlists: Vec<Playlist>,
    top_level: Vec<PlaylistID>,
}

/// What a playlist tree holds, as mathematical values.
pub struct TreeView {
    pub playlists: Seq<PlaylistView>,
    pub top_level: Seq<PlaylistID>,
}

impl View for PlaylistTree {
    type V = TreeView;

    closed spec fn view(&self) -> TreeView {
        TreeView { playlists: self.playlists@.map_values(|p: Playlist| p@), top_level: self.top_level@ }
    }
}

/// The IDs of the playlists, in the order they are held.
pub open spec fn ids_of(ps: Seq<PlaylistView>) -> Seq<PlaylistID> {
    ps.map_values(|p: PlaylistView| p.id)
}

/// Some playlist has this ID.
pub open spec fn has_id(ids: Seq<PlaylistID>, id: PlaylistID) -> bool {
    exists|i: int| 0 <= i < ids.len() && #[trigger] ids[i] == id
}

/// `i` is the first position holding `id`.
pub open spec fn is_first_index(ids: Seq<PlaylistID>, id: PlaylistID, i: int) -> bool {
    &&& 0 <= i < ids.len()
    &&& ids[i] == id
    &&& forall|j: int| 0 <= j < i ==> #[trigger] ids[j] != id
}

/// The first position holding `id` (meaningful when there is one).
pub open spec fn index_of(ids: Seq<PlaylistID>, id: PlaylistID) -> int {
    choose|i: int| #[trigger] is_first_index(ids, id, i)
}

/// The position of the playlist with `id` within its parent, or 0 if no
/// playlist has that ID.
pub open spec fn order_of(ps: Seq<PlaylistView>, id: PlaylistID) -> u64 {
    if has_id(ids_of(ps), id) { ps[index_of(ids_of(ps), id)].parent_order } else { 0 }
}

/// No ID occurs twice.
pub open spec fn unique_ids(ids: Seq<PlaylistID>) -> bool {
    forall|i: int, j: int| 0 <= i < ids.len() && 0 <= j < ids.len() && i != j ==> #[trigger] ids[i] != #[trigger] ids[j]
}

proof fn lemma_first_index_upto(ids: Seq<PlaylistID>, id: PlaylistID, j: int)
    requires
        0 <= j < ids.len(),
        ids[j] == id,
    ensures
        exists|i: int| #[trigger] is_first_index(ids, id, i),
    decreases j,
{
    if exists|k: int| 0 <= k < j && ids[k] == id {
        let k = choose|k: int| 0 <= k < j && ids[k] == id;
        lemma_first_index_upto(ids, id, k);
    } else {
        assert(is_first_index(ids, id, j));
    }
}

/// When some position holds `id`, `index_of` is the first such position.
pub proof fn lemma_index_of(ids: Seq<PlaylistID>, id: PlaylistID)
    requires
        has_id(ids, id),
    ensures
        is_first_index(ids, id, index_of(ids, id)),
        0 <= index_of(ids, id) < ids.len(),
        ids[index_of(ids, id)] == id,
{
    let j = choose|j: int| 0 <= j < ids.len() && #[trigger] ids[j] == id;
    lemma_first_index_upto(ids, id, j);
}

/// The first position holding `id`, if any.
fn find_index(ids: &Vec<PlaylistID>, id: PlaylistID) -> (r: Option<usize>)
    ensures
        match r {
            Some(i) => has_id(ids@, id) && is_first_index(ids@, id, i as int) && i == index_of(ids@, id),
            None => !has_id(ids@, id),
        },
{
    let mut i: usize = 0;
    while i < ids.len()
        invariant
            i <= ids@.len(),
            forall|j: int| 0 <= j < i ==> #[trigger] ids@[j] != id,
        decreases ids.len() - i,
    {
        if ids[i] == id {
            proof {
                assert(is_first_index(ids@, id, i as int));
                let k = index_of(ids@, id);
                if k < i {
                    assert(ids@[k] != id);
                } else if k > i {
                    assert(ids@[i as int] != id);
                }
            }
            return Some(i);
        }
        i += 1;
    }
    None
}

impl PlaylistTree {
    /// An empty tree.
    pub fn new() -> (t: PlaylistTree)
        ensures
            t@.playlists == Seq::<PlaylistView>::empty(),
            t@.top_level == Seq::<PlaylistID>::empty(),
    {
        let t = PlaylistTree { playlists: Vec::new(), top_level: Vec::new() };
        assert(t@.playlists =~= Seq::<PlaylistView>::empty());
        t
    }

    /// The number of playlists.
    pub fn len(&self) -> (n: usize)
        ensures
            n == self@.playlists.len(),
    {
        self.playlists.len()
    }

    /// The playlist at position `i`.
    pub fn playlist_at(&self, i: usize) -> (p: &Playlist)
        requires
            i < self@.playlists.len(),
        ensures
            p@ == self@.playlists[i as int],
    {
        &self.playlists[i]
    }

    /// The playlist at position `i`, to change it. Its ID must be left as it
    /// is (no method of `Playlist` changes it).
    pub fn playlist_at_mut(&mut self, i: usize) -> (p: &mut Playlist)
        requires
            i < old(self)@.playlists.len(),
        ensures
            p@ == old(self)@.playlists[i as int],
            final(self)@.playlists == old(self)@.playlists.update(i as int, final(p)@),
            final(self)@.top_level == old(self)@.top_level,
    {
        &mut self.playlists[i]
    }

    /// The IDs of the playlists, in the order they are held.
    fn ids(&self) -> (r: Vec<PlaylistID>)
        ensures
            r@ == ids_of(self@.playlists),
    {
        let mut r: Vec<PlaylistID> = Vec::new();
        let mut i: usize = 0;
        while i < self.playlists.len()
            invariant
                i <= self.playlists@.len(),
                r@ == ids_of(self@.playlists).take(i as int),
            decreases self.playlists.len() - i,
        {
            r.push(self.playlists[i].get_id());
            i += 1;
            assert(r@ =~= ids_of(self@.playlists).take(i as int));
        }
        assert(ids_of(self@.playlists).take(self.playlists@.len() as int) =~= ids_of(self@.playlists));
        r
    }

    /// The position of the playlist with ID `id` (the first, if several
    /// share it).
    pub fn find(&self, id: PlaylistID) -> (r: Option<usize>)
        ensures
            match r {
                Some(i) => has_id(ids_of(self@.playlists), id) && i == index_of(ids_of(self@.playlists), id)
                    && is_first_index(ids_of(self@.playlists), id, i as int)
                    && i < self@.playlists.len() && self@.playlists[i as int].id == id,
                None => !has_id(ids_of(self@.playlists), id),
            },
    {
        let ids = self.ids();
        let r = find_index(&ids, id);
        proof {
            if let Some(i) = r {
                assert(ids_of(self@.playlists)[i as int] == self@.playlists[i as int].id);
            }
        }
        r
    }
}

/// The top-level playlists, in order.
pub fn get_top_level_playlists(tree: &PlaylistTree) -> (r: &[PlaylistID])
    ensures
        r@ == tree@.top_level,
{
    tree.top_level.as_slice()
}

/// The playlist with ID `id`, if there is one.
pub fn get_playlist_by_id(tree: &PlaylistTree, id: PlaylistID) -> (r: Option<&Playlist>)
    ensures
        match r {
            Some(p) => has_id(ids_of(tree@.playlists), id)
                && p@ == tree@.playlists[index_of(ids_of(tree@.playlists), id)],
            None => !has_id(ids_of(tree@.playlists), id),
        },
{
    match tree.find(id) {
        Some(i) => Some(&tree.playlists[i]),
        None => None,
    }
}

/// The tree after adding (or replacing) a playlist `p` loaded from the
/// database: a playlist with the same ID is replaced, another is appended,
/// and a playlist without parent is appended to the top-level list.
pub open spec fn with_playlist(t: TreeView, p: PlaylistView) -> TreeView {
    TreeView {
        playlists: if has_id(ids_of(t.playlists), p.id) {
            t.playlists.update(index_of(ids_of(t.playlists), p.id), p)
        } else {
            t.playlists.push(p)
        },
        top_level: if p.parent_id is None { t.top_level.push(p.id) } else { t.top_level },
    }
}

/// Adds a playlist loaded from the database. Call `rebuild_children` once
/// all playlists are added.
pub fn add_playlist_from_db(tree: &mut PlaylistTree, id: PlaylistID, parent_id: Option<PlaylistID>,
    parent_order: u64, name: String, rule_code: String, shuffled: bool, playmode: Playmode,
    manually_added_ids: Vec<SongID>, columns: Vec<Column>, sort_order: Vec<(String, bool)>) -> (r: PlaylistID)
    ensures
        r == id,
        final(tree)@ == with_playlist(old(tree)@, PlaylistView {
            id,
            parent_id,
            parent_order,
            name: name@,
            rule_code: rule_code@,
            manual: manually_added_ids@,
            columns: columns_view(columns@),
            sort_order: sort_order_view(sort_order@),
            shuffled,
            playmode,
            library_generation: 0,
            generation: 0,
            contents: Seq::empty(),
            songs: Seq::empty(),
            children: Seq::empty(),
        }),
{
    let p = Playlist::from_db(id, parent_id, parent_order, name, rule_code, shuffled, playmode,
        manually_added_ids, columns, sort_order);
    let ghost pv = p@;
    let ghost before = tree@;
    if parent_id.is_none() {
        tree.top_level.push(id);
    }
    match tree.find(id) {
        Some(i) => {
            tree.playlists.set(i, p);
        },
        None => {
            tree.playlists.push(p);
        },
    }
    assert(tree@.playlists =~= with_playlist(before, pv).playlists);
    id
}

/// The position a new top-level playlist gets: one after the last
/// top-level playlist's (wrapping around at the top of `u64`), or 0.
pub open spec fn next_top_level_order(t: TreeView) -> u64 {
    if t.top_level.len() == 0 {
        0
    } else {
        let last = order_of(t.playlists, t.top_level.last());
        if last == u64::MAX { 0 } else { (last + 1) as u64 }
    }
}

/// The position a new top-level playlist gets (the caller creates it in the
/// database at that position, then calls `create_new_playlist`).
pub fn new_playlist_order(tree: &PlaylistTree) -> (r: u64)
    ensures
        r == next_top_level_order(tree@),
{
    if tree.top_level.len() == 0 {
        0
    } else {
        let last = tree.top_level[tree.top_level.len() - 1];
        let order = match tree.find(last) {
            Some(i) => tree.playlists[i].get_parent_order(),
            None => 0,
        };
        order.wrapping_add(1)
    }
}

/// The name a new playlist gets.
pub const NEW_PLAYLIST_NAME: &'static str = "New Playlist";

/// Adds a new, empty top-level playlist with the ID and position the
/// database gave it: named "New Playlist", no rule, sorted, no looping,
/// default columns and sort order.
pub fn create_new_playlist(tree: &mut PlaylistTree, new_id: PlaylistID, new_order: u64) -> (r: PlaylistID)
    ensures
        r == new_id,
        final(tree)@ == with_playlist(old(tree)@, PlaylistView {
            id: new_id,
            parent_id: None,
            parent_order: new_order,
            name: NEW_PLAYLIST_NAME@,
            rule_code: Seq::empty(),
            manual: Seq::empty(),
            columns: seq![("title"@, 220u32), ("duration"@, 50u32), ("artist"@, 117u32), ("album"@, 117u32)],
            sort_order: seq![("disc#"@, false), ("track#"@, false), ("album"@, false), ("title"@, false)],
            shuffled: false,
            playmode: Playmode::End,
            library_generation: 0,
            generation: 0,
            contents: Seq::empty(),
            songs: Seq::empty(),
            children: Seq::empty(),
        }),
{
    add_playlist_from_db(tree, new_id, None, new_order, NEW_PLAYLIST_NAME.to_owned(), String::new(), false,
        Playmode::End, Vec::new(), default_columns(), default_sort_order())
}

/// The list without any occurrence of `x`.
pub open spec fn without(s: Seq<PlaylistID>, x: PlaylistID) -> Seq<PlaylistID>
    decreases s.len(),
{
    if s.len() == 0 {
        Seq::empty()
    } else {
        let rest = without(s.drop_last(), x);
        if s.last() != x { rest.push(s.last()) } else { rest }
    }
}

/// `k` steps after `start`, counting as `u64` addition wraps around.
pub open spec fn step_order(start: u64, k: int) -> u64
    decreases k,
{
    if k <= 0 {
        start
    } else {
        let p = step_order(start, k - 1);
        if p == u64::MAX { 0 } else { (p + 1) as u64 }
    }
}

/// The playlist with ID `id` (the first one, looked up in `ids`) moved to
/// parent `parent` at position `order`.
pub open spec fn reparented(ps: Seq<PlaylistView>, ids: Seq<PlaylistID>, id: PlaylistID, parent: Option<PlaylistID>, order: u64) -> Seq<PlaylistView> {
    if has_id(ids, id) {
        let i = index_of(ids, id);
        ps.update(i, PlaylistView { parent_id: parent, parent_order: order, ..ps[i] })
    } else {
        ps
    }
}

/// The playlists after the first `n` of `kids` are adopted by `parent`,
/// numbered from `start` on.
pub open spec fn adopted(ps: Seq<PlaylistView>, ids: Seq<PlaylistID>, kids: Seq<PlaylistID>, parent: Option<PlaylistID>, start: u64, n: int) -> Seq<PlaylistView>
    decreases n,
{
    if n <= 0 {
        ps
    } else {
        reparented(adopted(ps, ids, kids, parent, start, n - 1), ids, kids[n - 1], parent, step_order(start, n - 1))
    }
}

/// The database updates for adopting `kids`: each kid's new parent and
/// position.
pub open spec fn adoption_updates(kids: Seq<PlaylistID>, parent: Option<PlaylistID>, start: u64) -> Seq<(PlaylistID, Option<PlaylistID>, u64)> {
    Seq::new(kids.len(), |k: int| (kids[k], parent, step_order(start, k)))
}

/// The position after the last playlist of a group, or 0 for an empty
/// group.
pub open spec fn next_order_in(ps: Seq<PlaylistView>, group: Seq<PlaylistID>) -> u64 {
    if group.len() == 0 { 0 } else { step_order(order_of(ps, group.last()), 1) }
}

/// A playlist leaving a group: it is removed from `siblings`, and its
/// children (except itself) are appended to the group, adopted by its
/// parent and numbered after the last remaining sibling.
pub open spec fn leave_group(ps: Seq<PlaylistView>, victim: int, siblings: Seq<PlaylistID>) -> (Seq<PlaylistView>, Seq<PlaylistID>, Seq<(PlaylistID, Option<PlaylistID>, u64)>) {
    let v = ps[victim];
    let rest = without(siblings, v.id);
    let kids = without(v.children, v.id);
    let start = next_order_in(ps, rest);
    let ids = ids_of(ps);
    let after = adopted(ps, ids, kids, v.parent_id, start, kids.len() as int);
    (after.update(victim, PlaylistView { children: Seq::empty(), ..after[victim] }), rest + kids, adoption_updates(kids, v.parent_id, start))
}

proof fn lemma_reparented_ids(ps: Seq<PlaylistView>, ids: Seq<PlaylistID>, id: PlaylistID, parent: Option<PlaylistID>, order: u64)
    requires
        ids == ids_of(ps),
    ensures
        ids_of(reparented(ps, ids, id, parent, order)) == ids,
        reparented(ps, ids, id, parent, order).len() == ps.len(),
{
    if has_id(ids, id) {
        lemma_index_of(ids, id);
        assert(ids_of(reparented(ps, ids, id, parent, order)) =~= ids);
    }
}

/// No occurrence of `x` is left.
proof fn lemma_without_excludes(s: Seq<PlaylistID>, x: PlaylistID)
    ensures
        forall|i: int| 0 <= i < without(s, x).len() ==> #[trigger] without(s, x)[i] != x,
    decreases s.len(),
{
    if s.len() > 0 {
        lemma_without_excludes(s.drop_last(), x);
        let rest = without(s.drop_last(), x);
        assert forall|i: int| 0 <= i < without(s, x).len() implies #[trigger] without(s, x)[i] != x by {
            if i < rest.len() {
                assert(without(s, x)[i] == rest[i]);
            }
        }
    }
}

proof fn lemma_adopted_ids(ps: Seq<PlaylistView>, ids: Seq<PlaylistID>, kids: Seq<PlaylistID>, parent: Option<PlaylistID>, start: u64, n: int)
    requires
        ids == ids_of(ps),
    ensures
        ids_of(adopted(ps, ids, kids, parent, start, n)) == ids,
        adopted(ps, ids, kids, parent, start, n).len() == ps.len(),
    decreases n,
{
    if n > 0 {
        lemma_adopted_ids(ps, ids, kids, parent, start, n - 1);
        lemma_reparented_ids(adopted(ps, ids, kids, parent, start, n - 1), ids, kids[n - 1], parent, step_order(start, n - 1));
    }
}

/// The list without any occurrence of `x`.
fn remove_all(s: Vec<PlaylistID>, x: PlaylistID) -> (r: Vec<PlaylistID>)
    ensures
        r@ == without(s@, x),
{
    let mut r: Vec<PlaylistID> = Vec::new();
    let mut i: usize = 0;
    while i < s.len()
        invariant
            i <= s@.len(),
            r@ == without(s@.take(i as int), x),
        decreases s.len() - i,
    {
        assert(s@.take(i + 1).drop_last() =~= s@.take(i as int));
        if s[i] != x {
            r.push(s[i]);
        }
        i += 1;
    }
    assert(s@.take(s@.len() as int) =~= s@);
    r
}

impl PlaylistTree {
    /// The position of the playlist with ID `id`, or 0 if there is none.
    fn order_of_id(&self, id: PlaylistID) -> (r: u64)
        ensures
            r == order_of(self@.playlists, id),
    {
        match self.find(id) {
            Some(i) => self.playlists[i].get_parent_order(),
            None => 0,
        }
    }

    /// Moves the playlist with ID `id` to parent `parent` at position
    /// `order`.
    fn reparent(&mut self, id: PlaylistID, parent: Option<PlaylistID>, order: u64)
        ensures
            final(self)@.playlists == reparented(old(self)@.playlists, ids_of(old(self)@.playlists), id, parent, order),
            final(self)@.top_level == old(self)@.top_level,
    {
        match self.find(id) {
            Some(i) => {
                let p = self.playlist_at_mut(i);
                p.set_parent_id(parent);
                p.set_parent_order(order);
            },
            None => {},
        }
        proof {
            let ps = old(self)@.playlists;
            assert(self@.playlists =~= reparented(ps, ids_of(ps), id, parent, order));
        }
    }

    /// Removes playlist `victim` from the group `siblings`, and appends its
    /// children to the group, adopted by its parent. Returns the new group
    /// and the database updates for the adopted children.
    fn leave(&mut self, victim: usize, siblings: Vec<PlaylistID>) -> (r: (Vec<PlaylistID>, Vec<(PlaylistID, Option<PlaylistID>, u64)>))
        requires
            victim < old(self)@.playlists.len(),
        ensures
            final(self)@.playlists == leave_group(old(self)@.playlists, victim as int, siblings@).0,
            r.0@ == leave_group(old(self)@.playlists, victim as int, siblings@).1,
            r.1@ == leave_group(old(self)@.playlists, victim as int, siblings@).2,
            final(self)@.top_level == old(self)@.top_level,
    {
        let ghost ps = old(self)@.playlists;
        let ghost ids = ids_of(ps);
        let vid = self.playlists[victim].get_id();
        let vparent = self.playlists[victim].get_parent_id();
        assert(ps[victim as int] == self.playlists@[victim as int]@);
        assert(ids[victim as int] == vid);
        let rest = remove_all(siblings, vid);
        let kids = remove_all(self.playlist_at_mut(victim).take_children(), vid);
        let ghost vkids = ps[victim as int].children;
        proof {
            assert(self@.playlists =~= ps.update(victim as int, PlaylistView { children: Seq::empty(), ..ps[victim as int] }));
            assert(ids_of(self@.playlists) =~= ids);
            assert(adopted(ps, ids, kids@, vparent, 0, 0) == ps);
        }
        let mut next_order: u64 = if rest.len() == 0 {
            0
        } else {
            let last_order = self.order_of_id(rest[rest.len() - 1]);
            proof {
                let id = rest@.last();
                if has_id(ids, id) {
                    lemma_index_of(ids, id);
                }
                assert(last_order == order_of(ps, id));
                assert(step_order(last_order, 0) == last_order);
            }
            last_order.wrapping_add(1)
        };
        let ghost start = next_order;
        let mut group = rest;
        let mut updates: Vec<(PlaylistID, Option<PlaylistID>, u64)> = Vec::new();
        let mut k: usize = 0;
        while k < kids.len()
            invariant
                k <= kids@.len(),
                victim < ps.len(),
                ids == ids_of(ps),
                kids@ == without(vkids, vid),
                vkids == ps[victim as int].children,
                vid == ps[victim as int].id,
                vparent == ps[victim as int].parent_id,
                start == next_order_in(ps, without(siblings@, vid)),
                ids_of(self@.playlists) == ids,
                self@.playlists == adopted(ps, ids, kids@, vparent, start, k as int)
                    .update(victim as int, PlaylistView { children: Seq::empty(), ..adopted(ps, ids, kids@, vparent, start, k as int)[victim as int] }),
                self@.top_level == old(self)@.top_level,
                next_order == step_order(start, k as int),
                group@ == without(siblings@, vid) + kids@.take(k as int),
                updates@ == adoption_updates(kids@, vparent, start).take(k as int),
            decreases kids.len() - k,
        {
            let child = kids[k];
            let ghost prev = adopted(ps, ids, kids@, vparent, start, k as int);
            let ghost cur = self@.playlists;
            proof {
                lemma_adopted_ids(ps, ids, kids@, vparent, start, k as int);
                lemma_without_excludes(vkids, vid);
                assert(kids@ == without(vkids, vid));
                assert(without(vkids, vid)[k as int] != vid);
                assert(child != vid);
                if has_id(ids, child) {
                    lemma_index_of(ids, child);
                }
            }
            self.reparent(child, vparent, next_order);
            proof {
                lemma_reparented_ids(cur, ids, child, vparent, next_order);
                let next = adopted(ps, ids, kids@, vparent, start, k + 1);
                assert(next == reparented(prev, ids, child, vparent, next_order));
                lemma_reparented_ids(prev, ids, child, vparent, next_order);
                assert(self@.playlists =~= next.update(victim as int, PlaylistView { children: Seq::empty(), ..next[victim as int] }));
            }
            group.push(child);
            updates.push((child, vparent, next_order));
            next_order = next_order.wrapping_add(1);
            k += 1;
            proof {
                assert(group@ =~= without(siblings@, vid) + kids@.take(k as int));
                assert(updates@ =~= adoption_updates(kids@, vparent, start).take(k as int));
            }
        }
        proof {
            assert(kids@.take(kids@.len() as int) =~= kids@);
            assert(adoption_updates(kids@, vparent, start).take(kids@.len() as int) =~= adoption_updates(kids@, vparent, start));
        }
        (group, updates)
    }
}

/// The playlists after the first `n` of `group` get their positions in it
/// as their order.
pub open spec fn renumbered(ps: Seq<PlaylistView>, ids: Seq<PlaylistID>, group: Seq<PlaylistID>, n: int) -> Seq<PlaylistView>
    decreases n,
{
    if n <= 0 {
        ps
    } else {
        let prev = renumbered(ps, ids, group, n - 1);
        let id = group[n - 1];
        if has_id(ids, id) {
            let i = index_of(ids, id);
            prev.update(i, PlaylistView { parent_order: (n - 1) as u64, ..prev[i] })
        } else {
            prev
        }
    }
}

/// The database updates made while renumbering the first `n` of `group`:
/// each playlist whose order changed, with its new order.
pub open spec fn renumber_updates(ps: Seq<PlaylistView>, ids: Seq<PlaylistID>, group: Seq<PlaylistID>, n: int) -> Seq<(PlaylistID, u64)>
    decreases n,
{
    if n <= 0 {
        Seq::empty()
    } else {
        let prev = renumbered(ps, ids, group, n - 1);
        let rest = renumber_updates(ps, ids, group, n - 1);
        let id = group[n - 1];
        if has_id(ids, id) && prev[index_of(ids, id)].parent_order != n - 1 { rest.push((id, (n - 1) as u64)) } else { rest }
    }
}

proof fn lemma_renumbered_ids(ps: Seq<PlaylistView>, ids: Seq<PlaylistID>, group: Seq<PlaylistID>, n: int)
    requires
        ids == ids_of(ps),
    ensures
        ids_of(renumbered(ps, ids, group, n)) == ids,
        renumbered(ps, ids, group, n).len() == ps.len(),
        forall|i: int| 0 <= i < ps.len() ==> (#[trigger] renumbered(ps, ids, group, n)[i]) == (PlaylistView {
            parent_order: renumbered(ps, ids, group, n)[i].parent_order,
            ..ps[i]
        }),
    decreases n,
{
    if n > 0 {
        lemma_renumbered_ids(ps, ids, group, n - 1);
        let prev = renumbered(ps, ids, group, n - 1);
        let id = group[n - 1];
        if has_id(ids, id) {
            lemma_index_of(ids, id);
        }
        assert(ids_of(renumbered(ps, ids, group, n)) =~= ids);
    }
}

/// Numbering a group: when no ID of the group occurs twice, and each names
/// a playlist, each playlist of the group ends up with its position in the
/// group as its order, and the others keep theirs.
pub proof fn law_renumbered_positions(ps: Seq<PlaylistView>, group: Seq<PlaylistID>)
    requires
        group.len() <= u64::MAX,
        unique_ids(group),
        forall|n: int| 0 <= n < group.len() ==> #[trigger] has_id(ids_of(ps), group[n]),
    ensures
        forall|n: int| 0 <= n < group.len() ==>
            #[trigger] order_of(renumbered(ps, ids_of(ps), group, group.len() as int), group[n]) == n,
        forall|i: int| 0 <= i < ps.len() && !group.contains(ps[i].id) ==>
            (#[trigger] renumbered(ps, ids_of(ps), group, group.len() as int)[i]) == ps[i],
{
    lemma_renumbered_upto(ps, group, group.len() as int);
}

proof fn lemma_renumbered_upto(ps: Seq<PlaylistView>, group: Seq<PlaylistID>, k: int)
    requires
        0 <= k <= group.len(),
        group.len() <= u64::MAX,
        unique_ids(group),
        forall|n: int| 0 <= n < group.len() ==> #[trigger] has_id(ids_of(ps), group[n]),
    ensures
        forall|n: int| 0 <= n < k ==>
            #[trigger] order_of(renumbered(ps, ids_of(ps), group, k), group[n]) == n,
        forall|i: int| 0 <= i < ps.len() && !group.take(k).contains(ps[i].id) ==>
            (#[trigger] renumbered(ps, ids_of(ps), group, k)[i]) == ps[i],
    decreases k,
{
    let ids = ids_of(ps);
    lemma_renumbered_ids(ps, ids, group, k);
    if k > 0 {
        lemma_renumbered_upto(ps, group, k - 1);
        let prev = renumbered(ps, ids, group, k - 1);
        lemma_renumbered_ids(ps, ids, group, k - 1);
        let id = group[k - 1];
        assert(has_id(ids, id));
        lemma_index_of(ids, id);
        let j = index_of(ids, id);
        let cur = renumbered(ps, ids, group, k);
        assert(ids_of(cur) == ids);
        assert forall|n: int| 0 <= n < k implies #[trigger] order_of(cur, group[n]) == n by {
            assert(has_id(ids, group[n]));
            lemma_index_of(ids, group[n]);
            if n < k - 1 {
                assert(group[n] != id);
                assert(index_of(ids, group[n]) != j);
                assert(order_of(prev, group[n]) == n);
            }
        }
        assert forall|i: int| 0 <= i < ps.len() && !group.take(k).contains(ps[i].id) implies
            (#[trigger] renumbered(ps, ids, group, k)[i]) == ps[i] by {
            assert(group.take(k)[k - 1] == id);
            assert(ids[i] == ps[i].id);
            if i == j {
                assert(group.take(k).contains(ps[i].id));
            }
            assert(!group.take(k - 1).contains(ps[i].id)) by {
                if group.take(k - 1).contains(ps[i].id) {
                    let w = choose|w: int| 0 <= w < group.take(k - 1).len() && #[trigger] group.take(k - 1)[w] == ps[i].id;
                    assert(group.take(k)[w] == ps[i].id);
                }
            }
        }
    } else {
        assert forall|i: int| 0 <= i < ps.len() && !group.take(k).contains(ps[i].id) implies
            (#[trigger] renumbered(ps, ids, group, k)[i]) == ps[i] by {}
    }
}

impl PlaylistTree {
    /// Gives each playlist of `group` its position in the group as its
    /// order. Returns the playlists whose order changed, with their new
    /// order (for the database).
    fn redo_parent_orders(&mut self, group: &Vec<PlaylistID>) -> (r: Vec<(PlaylistID, u64)>)
        ensures
            final(self)@.playlists == renumbered(old(self)@.playlists, ids_of(old(self)@.playlists), group@, group@.len() as int),
            r@ == renumber_updates(old(self)@.playlists, ids_of(old(self)@.playlists), group@, group@.len() as int),
            final(self)@.top_level == old(self)@.top_level,
    {
        let ghost ps = old(self)@.playlists;
        let ghost ids = ids_of(ps);
        let mut updates: Vec<(PlaylistID, u64)> = Vec::new();
        let mut n: usize = 0;
        while n < group.len()
            invariant
                n <= group@.len(),
                ids == ids_of(ps),
                self@.playlists == renumbered(ps, ids, group@, n as int),
                updates@ == renumber_updates(ps, ids, group@, n as int),
                self@.top_level == old(self)@.top_level,
            decreases group.len() - n,
        {
            proof { lemma_renumbered_ids(ps, ids, group@, n as int); }
            let id = group[n];
            match self.find(id) {
                Some(i) => {
                    let order = n as u64;
                    if self.playlists[i].get_parent_order() != order {
                        updates.push((id, order));
                        self.playlist_at_mut(i).set_parent_order(order);
                    }
                    proof {
                        let next = renumbered(ps, ids, group@, n + 1);
                        assert(self@.playlists =~= next);
                    }
                },
                None => {},
            }
            n += 1;
        }
        updates
    }
}

/// A playlist leaving its group (its parent's children, or the top-level
/// list if it has no parent or its parent is missing): it is removed from
/// the group, and its children are appended to the group, adopted by its
/// parent. Returns the tree and the database updates for the adopted
/// children.
pub open spec fn left_group(t: TreeView, victim: PlaylistID) -> (TreeView, Seq<(PlaylistID, Option<PlaylistID>, u64)>) {
    let ps = t.playlists;
    let ids = ids_of(ps);
    let vi = index_of(ids, victim);
    let v = ps[vi];
    if v.parent_id is Some && has_id(ids, v.parent_id->0) {
        let pi = index_of(ids, v.parent_id->0);
        let ps0 = ps.update(pi, PlaylistView { children: Seq::empty(), ..ps[pi] });
        let r = leave_group(ps0, vi, ps[pi].children);
        (TreeView { playlists: r.0.update(pi, PlaylistView { children: r.1, ..r.0[pi] }), top_level: t.top_level }, r.2)
    } else {
        let r = leave_group(ps, vi, t.top_level);
        (TreeView { playlists: r.0, top_level: r.1 }, r.2)
    }
}

/// The victim has a parent different from itself, or none.
pub open spec fn deletable(t: TreeView, victim: PlaylistID) -> bool {
    &&& has_id(ids_of(t.playlists), victim)
    &&& t.playlists[index_of(ids_of(t.playlists), victim)].parent_id != Some(victim)
}

/// The playlist with ID `id` (the first one) with parent `parent`.
pub open spec fn with_parent(t: TreeView, id: PlaylistID, parent: Option<PlaylistID>) -> TreeView {
    let i = index_of(ids_of(t.playlists), id);
    TreeView { playlists: t.playlists.update(i, PlaylistView { parent_id: parent, ..t.playlists[i] }), top_level: t.top_level }
}

impl PlaylistTree {
    /// Takes playlist `victim` out of its group (see `left_group`).
    fn leave_parent(&mut self, victim: PlaylistID) -> (r: Vec<(PlaylistID, Option<PlaylistID>, u64)>)
        requires
            deletable(old(self)@, victim),
        ensures
            final(self)@ == left_group(old(self)@, victim).0,
            r@ == left_group(old(self)@, victim).1,
    {
        let ghost t = old(self)@;
        let ghost ids = ids_of(t.playlists);
        proof { lemma_index_of(ids, victim); }
        let vi = match self.find(victim) {
            Some(i) => i,
            None => return Vec::new(),
        };
        let pid = self.playlists[vi].get_parent_id();
        let pidx = match pid {
            Some(p) => self.find(p),
            None => None,
        };
        match pidx {
            None => {
                let mut siblings: Vec<PlaylistID> = Vec::new();
                std::mem::swap(&mut siblings, &mut self.top_level);
                let (group, updates) = self.leave(vi, siblings);
                self.top_level = group;
                updates
            },
            Some(pi) => {
                proof {
                    lemma_index_of(ids, pid->0);
                    assert(ids[vi as int] == victim);
                    assert(pi != vi);
                }
                let siblings = self.playlist_at_mut(pi).take_children();
                proof {
                    let ps0 = t.playlists.update(pi as int, PlaylistView { children: Seq::empty(), ..t.playlists[pi as int] });
                    assert(self@.playlists =~= ps0);
                }
                let (group, updates) = self.leave(vi, siblings);
                proof {
                    let ps0 = t.playlists.update(pi as int, PlaylistView { children: Seq::empty(), ..t.playlists[pi as int] });
                    let r = leave_group(ps0, vi as int, t.playlists[pi as int].children);
                    lemma_adopted_ids(ps0, ids_of(ps0), without(ps0[vi as int].children, victim), ps0[vi as int].parent_id,
                        next_order_in(ps0, without(t.playlists[pi as int].children, victim)),
                        without(ps0[vi as int].children, victim).len() as int);
                    assert(ids_of(ps0) =~= ids);
                }
                self.playlist_at_mut(pi).set_children(group);
                updates
            },
        }
    }
}

/// A playlist leaving its group (when deleted or moved away) is no longer in
/// that group, and has no children left: they joined the group.
pub proof fn law_leaving_drops_victim(t: TreeView, victim: PlaylistID)
    requires
        deletable(t, victim),
    ensures
        ({
            let ids = ids_of(t.playlists);
            let vi = index_of(ids, victim);
            let v = t.playlists[vi];
            let l = left_group(t, victim).0;
            &&& l.playlists[vi].children == Seq::<PlaylistID>::empty()
            &&& (v.parent_id is Some && has_id(ids, v.parent_id->0))
                ==> !l.playlists[index_of(ids, v.parent_id->0)].children.contains(victim)
            &&& !(v.parent_id is Some && has_id(ids, v.parent_id->0)) ==> !l.top_level.contains(victim)
        }),
{
    let ps = t.playlists;
    let ids = ids_of(ps);
    lemma_index_of(ids, victim);
    lemma_left_group_ids(t, victim);
    let vi = index_of(ids, victim);
    let v = ps[vi];
    assert(ids[vi] == v.id);
    if v.parent_id is Some && has_id(ids, v.parent_id->0) {
        let pi = index_of(ids, v.parent_id->0);
        lemma_index_of(ids, v.parent_id->0);
        let ps0 = ps.update(pi, PlaylistView { children: Seq::empty(), ..ps[pi] });
        let r = leave_group(ps0, vi, ps[pi].children);
        let g = r.1;
        lemma_without_excludes(ps[pi].children, v.id);
        lemma_without_excludes(ps0[vi].children, v.id);
        assert(g == without(ps[pi].children, v.id) + without(ps0[vi].children, v.id));
        assert(!g.contains(victim)) by {
            if g.contains(victim) {
                let w = choose|w: int| 0 <= w < g.len() && g[w] == victim;
                let a = without(ps[pi].children, v.id);
                if w < a.len() {
                    assert(g[w] == a[w]);
                } else {
                    assert(g[w] == without(ps0[vi].children, v.id)[w - a.len()]);
                }
            }
        }
        let kids = without(ps0[vi].children, v.id);
        let start = next_order_in(ps0, without(ps[pi].children, v.id));
        lemma_adopted_ids(ps0, ids_of(ps0), kids, ps0[vi].parent_id, start, kids.len() as int);
        assert(ids_of(ps0) =~= ids);
    } else {
        let r = leave_group(ps, vi, t.top_level);
        let g = r.1;
        lemma_without_excludes(t.top_level, v.id);
        lemma_without_excludes(v.children, v.id);
        assert(!g.contains(victim)) by {
            if g.contains(victim) {
                let w = choose|w: int| 0 <= w < g.len() && g[w] == victim;
                let a = without(t.top_level, v.id);
                if w < a.len() {
                    assert(g[w] == a[w]);
                } else {
                    assert(g[w] == without(v.children, v.id)[w - a.len()]);
                }
            }
        }
        let kids = without(v.children, v.id);
        let start = next_order_in(ps, without(t.top_level, v.id));
        lemma_adopted_ids(ps, ids, kids, v.parent_id, start, kids.len() as int);
    }
}

/// Deletes playlist `victim` from the tree: it leaves its group, its
/// children are adopted by its parent (appended to its group), and it loses
/// its parent. Returns, for the database, each adopted child with its new
/// parent and position; the caller also deletes the playlist there.
pub fn delete_playlist(tree: &mut PlaylistTree, victim: PlaylistID) -> (r: Vec<(PlaylistID, Option<PlaylistID>, u64)>)
    requires
        deletable(old(tree)@, victim),
    ensures
        final(tree)@ == with_parent(left_group(old(tree)@, victim).0, victim, None),
        r@ == left_group(old(tree)@, victim).1,
{
    let r = tree.leave_parent(victim);
    let ghost t1 = tree@;
    proof {
        let t = old(tree)@;
        let ids = ids_of(t.playlists);
        lemma_index_of(ids, victim);
        lemma_left_group_ids(t, victim);
    }
    match tree.find(victim) {
        Some(vi) => {
            tree.playlist_at_mut(vi).set_parent_id(None);
            assert(tree@.playlists =~= with_parent(t1, victim, None).playlists);
        },
        None => {},
    }
    r
}

proof fn lemma_left_group_ids(t: TreeView, victim: PlaylistID)
    requires
        deletable(t, victim),
    ensures
        ids_of(left_group(t, victim).0.playlists) == ids_of(t.playlists),
{
    let ps = t.playlists;
    let ids = ids_of(ps);
    lemma_index_of(ids, victim);
    let vi = index_of(ids, victim);
    let v = ps[vi];
    if v.parent_id is Some && has_id(ids, v.parent_id->0) {
        let pi = index_of(ids, v.parent_id->0);
        lemma_index_of(ids, v.parent_id->0);
        let ps0 = ps.update(pi, PlaylistView { children: Seq::empty(), ..ps[pi] });
        assert(ids_of(ps0) =~= ids);
        let kids = without(ps0[vi].children, ps0[vi].id);
        let start = next_order_in(ps0, without(ps[pi].children, ps0[vi].id));
        lemma_adopted_ids(ps0, ids, kids, ps0[vi].parent_id, start, kids.len() as int);
        let r = leave_group(ps0, vi, ps[pi].children);
        assert(ids_of(r.0) =~= ids);
        assert(ids_of(r.0.update(pi, PlaylistView { children: r.1, ..r.0[pi] })) =~= ids);
    } else {
        let kids = without(v.children, v.id);
        let start = next_order_in(ps, without(t.top_level, v.id));
        lemma_adopted_ids(ps, ids, kids, v.parent_id, start, kids.len() as int);
        let r = leave_group(ps, vi, t.top_level);
        assert(ids_of(r.0) =~= ids);
    }
}

/// Where a playlist is inserted into a group: before `sibling` if it is in
/// the group, else at the end.
pub open spec fn insert_position(group: Seq<PlaylistID>, sibling: Option<PlaylistID>) -> int {
    if sibling is Some && has_id(group, sibling->0) { index_of(group, sibling->0) } else { group.len() as int }
}

/// The group a playlist goes into: its new parent's children, or the
/// top-level list.
pub open spec fn target_group(t: TreeView, parent: Option<PlaylistID>) -> Seq<PlaylistID> {
    match parent {
        Some(p) => t.playlists[index_of(ids_of(t.playlists), p)].children,
        None => t.top_level,
    }
}

/// The tree with the group of `parent` replaced by `g`.
pub open spec fn with_group(t: TreeView, parent: Option<PlaylistID>, g: Seq<PlaylistID>) -> TreeView {
    match parent {
        Some(p) => {
            let pi = index_of(ids_of(t.playlists), p);
            TreeView { playlists: t.playlists.update(pi, PlaylistView { children: g, ..t.playlists[pi] }), top_level: t.top_level }
        },
        None => TreeView { playlists: t.playlists, top_level: g },
    }
}

/// Moving a playlist: it leaves its group (its children being adopted as
/// when deleting it), gets `parent` as its parent, is inserted into the new
/// group before `sibling` (or at the end), and the new group is renumbered.
/// Returns the tree, the adoption updates, the new group and the order
/// updates.
pub open spec fn moved(t: TreeView, victim: PlaylistID, parent: Option<PlaylistID>, sibling: Option<PlaylistID>)
    -> (TreeView, Seq<(PlaylistID, Option<PlaylistID>, u64)>, Seq<PlaylistID>, Seq<(PlaylistID, u64)>)
{
    let l = left_group(t, victim);
    let t1 = with_parent(l.0, victim, parent);
    let g0 = target_group(t1, parent);
    let g = g0.insert(insert_position(g0, sibling), victim);
    let ps = with_group(t1, parent, g).playlists;
    let t2 = TreeView { playlists: renumbered(ps, ids_of(ps), g, g.len() as int), top_level: with_group(t1, parent, g).top_level };
    (t2, l.1, g, renumber_updates(ps, ids_of(ps), g, g.len() as int))
}

/// The group that `parent` names, after playlist `id` got `parent` as its
/// parent, is the group it named before.
proof fn lemma_target_group_with_parent(t: TreeView, id: PlaylistID, parent: Option<PlaylistID>, p: Option<PlaylistID>)
    requires
        has_id(ids_of(t.playlists), id),
        p is Some ==> has_id(ids_of(t.playlists), p->0),
    ensures
        ids_of(with_parent(t, id, parent).playlists) == ids_of(t.playlists),
        target_group(with_parent(t, id, parent), p) == target_group(t, p),
{
    lemma_index_of(ids_of(t.playlists), id);
    let t1 = with_parent(t, id, parent);
    assert(ids_of(t1.playlists) =~= ids_of(t.playlists));
    if let Some(q) = p {
        lemma_index_of(ids_of(t.playlists), q);
        let qi = index_of(ids_of(t.playlists), q);
        assert(index_of(ids_of(t1.playlists), q) == qi);
        assert(t1.playlists[qi].children == t.playlists[qi].children);
    }
}

/// Dropping playlist `v` before `s` in the group of `parent` (where `s`,
/// another playlist, is once `v` has left its old place): in the new group,
/// `v` stands right before `s`, and taking `v` out again gives back the
/// group as it was once `v` had left.
pub proof fn law_move_lands_before_sibling(t: TreeView, v: PlaylistID, parent: Option<PlaylistID>, s: PlaylistID)
    requires
        deletable(t, v),
        parent is Some ==> has_id(ids_of(t.playlists), parent->0) && parent->0 != v,
        s != v,
        target_group(left_group(t, v).0, parent).contains(s),
        !target_group(left_group(t, v).0, parent).contains(v),
    ensures
        ({
            let g = target_group(moved(t, v, parent, Some(s)).0, parent);
            let k = index_of(g, v);
            &&& has_id(g, v)
            &&& has_id(g, s)
            &&& index_of(g, s) == k + 1
            &&& g.remove(k) == target_group(left_group(t, v).0, parent)
        }),
{
    let l = left_group(t, v).0;
    lemma_left_group_ids(t, v);
    lemma_index_of(ids_of(t.playlists), v);
    if let Some(p) = parent {
        lemma_index_of(ids_of(t.playlists), p);
    }
    lemma_target_group_with_parent(l, v, parent, parent);
    let t1 = with_parent(l, v, parent);
    let g0 = target_group(t1, parent);
    assert(g0 == target_group(l, parent));
    assert(has_id(g0, s));
    lemma_index_of(g0, s);
    let pos = index_of(g0, s);
    assert(insert_position(g0, Some(s)) == pos);
    let g = g0.insert(pos, v);
    let w = with_group(t1, parent, g);
    let ps = w.playlists;
    assert(ids_of(ps) =~= ids_of(t1.playlists));
    lemma_renumbered_ids(ps, ids_of(ps), g, g.len() as int);
    let t2 = moved(t, v, parent, Some(s)).0;
    assert(target_group(t2, parent) == g) by {
        if let Some(p) = parent {
            let pi = index_of(ids_of(t1.playlists), p);
            assert(ids_of(t2.playlists) == ids_of(ps));
            assert(t2.playlists[pi] == (PlaylistView { parent_order: t2.playlists[pi].parent_order, ..ps[pi] }));
        }
    }
    // where v and s stand in the new group
    assert(g[pos] == v);
    assert(g[pos + 1] == s);
    assert(is_first_index(g, v, pos)) by {
        assert forall|j: int| 0 <= j < pos implies #[trigger] g[j] != v by {
            assert(g[j] == g0[j]);
        }
    }
    assert(is_first_index(g, s, pos + 1)) by {
        assert forall|j: int| 0 <= j < pos + 1 implies #[trigger] g[j] != s by {
            if j < pos {
                assert(g[j] == g0[j]);
            }
        }
    }
    assert(has_id(g, v));
    assert(has_id(g, s));
    lemma_index_of(g, v);
    lemma_index_of(g, s);
    let kv = index_of(g, v);
    let ks = index_of(g, s);
    if kv != pos {
        if kv < pos { assert(g[kv] != v); } else { assert(g[pos] != v); }
    }
    if ks != pos + 1 {
        if ks < pos + 1 { assert(g[ks] != s); } else { assert(g[pos + 1] != s); }
    }
    assert(g.remove(pos) =~= g0);
}

impl PlaylistID {
    /// Moves this playlist to be a child of `parent` (or top-level), before
    /// `sibling` (or at the end). Its own children stay in its old group,
    /// adopted by its old parent. Returns, for the database, the adopted
    /// children with their new parent and position, and each playlist of the
    /// new group whose position changed (the caller also records this
    /// playlist's new parent).
    pub fn move_next_to(&self, tree: &mut PlaylistTree, parent: Option<PlaylistID>, sibling: Option<PlaylistID>)
        -> (r: (Vec<(PlaylistID, Option<PlaylistID>, u64)>, Vec<(PlaylistID, u64)>))
        requires
            deletable(old(tree)@, *self),
            parent is Some ==> has_id(ids_of(old(tree)@.playlists), parent->0) && parent->0 != *self,
            old(tree)@.playlists.len() <= u64::MAX,
        ensures
            final(tree)@ == moved(old(tree)@, *self, parent, sibling).0,
            r.0@ == moved(old(tree)@, *self, parent, sibling).1,
            r.1@ == moved(old(tree)@, *self, parent, sibling).3,
    {
        let victim = *self;
        let ghost t = old(tree)@;
        let adoptions = tree.leave_parent(victim);
        let ghost t0 = tree@;
        proof {
            lemma_left_group_ids(t, victim);
            lemma_index_of(ids_of(t.playlists), victim);
            if let Some(p) = parent {
                lemma_index_of(ids_of(t.playlists), p);
            }
        }
        let vi = match tree.find(victim) {
            Some(i) => i,
            None => return (adoptions, Vec::new()),
        };
        tree.playlist_at_mut(vi).set_parent_id(parent);
        let ghost t1 = tree@;
        assert(t1.playlists =~= with_parent(t0, victim, parent).playlists);
        assert(ids_of(t1.playlists) =~= ids_of(t.playlists));
        let pidx = match parent {
            Some(p) => tree.find(p),
            None => None,
        };
        let mut group: Vec<PlaylistID> = match pidx {
            Some(pi) => tree.playlist_at_mut(pi).take_children(),
            None => {
                let mut g: Vec<PlaylistID> = Vec::new();
                std::mem::swap(&mut g, &mut tree.top_level);
                g
            },
        };
        let ghost g0 = group@;
        assert(g0 == target_group(t1, parent));
        let pos = match sibling {
            Some(x) => match find_index(&group, x) {
                Some(i) => i,
                None => group.len(),
            },
            None => group.len(),
        };
        group.insert(pos, victim);
        let ghost g = group@;
        match pidx {
            Some(pi) => {
                let g2 = copy_ids(&group);
                tree.playlist_at_mut(pi).set_children(g2);
                assert(tree@.playlists =~= with_group(t1, parent, g).playlists);
            },
            None => {
                tree.top_level = copy_ids(&group);
                assert(tree@.playlists =~= with_group(t1, parent, g).playlists);
            },
        }
        let reorders = tree.redo_parent_orders(&group);
        (adoptions, reorders)
    }
}

/// A copy of a list of IDs.
fn copy_ids(v: &Vec<PlaylistID>) -> (r: Vec<PlaylistID>)
    ensures
        r@ == v@,
{
    let mut r: Vec<PlaylistID> = Vec::new();
    let mut i: usize = 0;
    while i < v.len()
        invariant
            i <= v.len(),
            r@ == v@.take(i as int),
        decreases v.len() - i,
    {
        r.push(v[i]);
        i += 1;
        assert(r@ =~= v@.take(i as int));
    }
    assert(v@.take(v.len() as int) =~= v@);
    r
}

/// Why a playlist lost its parent while the children were rebuilt.
#[derive(Clone, Copy, Debug, PartialEq, Eq, Structural)]
pub enum ParentProblem {
    /// It wanted to be its own parent.
    OwnParent,
    /// Its parent does not exist.
    MissingParent,
}

/// The parent playlist `c` keeps when the children are rebuilt: none if it
/// named itself or a missing playlist.
pub open spec fn linked_parent(ps: Seq<PlaylistView>, c: int) -> Option<PlaylistID> {
    match ps[c].parent_id {
        Some(p) => if p == ps[c].id || !has_id(ids_of(ps), p) { None } else { Some(p) },
        None => None,
    }
}

/// Playlist `c` is linked as a child of the playlist at position `k`.
pub open spec fn links_to(ps: Seq<PlaylistView>, c: int, k: int) -> bool {
    linked_parent(ps, c) is Some && index_of(ids_of(ps), linked_parent(ps, c)->0) == k
}

/// The IDs of the playlists among the first `n` that are linked as children
/// of the playlist at position `k`, in order.
pub open spec fn linked_children(ps: Seq<PlaylistView>, k: int, n: int) -> Seq<PlaylistID>
    decreases n,
{
    if n <= 0 {
        Seq::empty()
    } else {
        let rest = linked_children(ps, k, n - 1);
        if links_to(ps, n - 1, k) { rest.push(ps[n - 1].id) } else { rest }
    }
}

/// The problems found among the first `n` playlists, in order.
pub open spec fn parent_problems(ps: Seq<PlaylistView>, n: int) -> Seq<(PlaylistID, ParentProblem)>
    decreases n,
{
    if n <= 0 {
        Seq::empty()
    } else {
        let rest = parent_problems(ps, n - 1);
        match ps[n - 1].parent_id {
            Some(p) => if p == ps[n - 1].id {
                rest.push((ps[n - 1].id, ParentProblem::OwnParent))
            } else if !has_id(ids_of(ps), p) {
                rest.push((ps[n - 1].id, ParentProblem::MissingParent))
            } else {
                rest
            },
            None => rest,
        }
    }
}

/// The playlists with their parents checked and their children linked
/// anew, in playlist order.
pub open spec fn linked(ps: Seq<PlaylistView>) -> Seq<PlaylistView> {
    Seq::new(ps.len(), |i: int| PlaylistView {
        parent_id: linked_parent(ps, i),
        children: linked_children(ps, i, ps.len() as int),
        ..ps[i]
    })
}

/// The sort key of a group member: its position, then its ID.
pub open spec fn group_key_le(ps: Seq<PlaylistView>, a: PlaylistID, b: PlaylistID) -> bool {
    order_of(ps, a) < order_of(ps, b) || (order_of(ps, a) == order_of(ps, b) && a.value() <= b.value())
}

/// The group is sorted by position, then ID.
pub open spec fn group_sorted(ps: Seq<PlaylistView>, g: Seq<PlaylistID>) -> bool {
    forall|i: int, j: int| 0 <= i < j < g.len() ==> group_key_le(ps, #[trigger] g[i], #[trigger] g[j])
}

impl PlaylistTree {
    /// Empties every children list, drops parents that are the playlist
    /// itself or missing, and links every other playlist as a child of its
    /// parent, in playlist order. Returns the dropped parents.
    fn link_children(&mut self) -> (r: Vec<(PlaylistID, ParentProblem)>)
        ensures
            final(self)@.playlists == linked(old(self)@.playlists),
            final(self)@.top_level == old(self)@.top_level,
            r@ == parent_problems(old(self)@.playlists, old(self)@.playlists.len() as int),
    {
        let ghost ps = old(self)@.playlists;
        let ghost ids = ids_of(ps);
        let n = self.playlists.len();
        let mut i: usize = 0;
        while i < n
            invariant
                n == ps.len(),
                i <= n,
                self@.playlists.len() == n,
                self@.top_level == old(self)@.top_level,
                forall|j: int| 0 <= j < n ==> (#[trigger] self@.playlists[j]) == (PlaylistView {
                    children: if j < i { Seq::empty() } else { ps[j].children },
                    ..ps[j]
                }),
            decreases n - i,
        {
            self.playlist_at_mut(i).set_children(Vec::new());
            i += 1;
        }
        let mut problems: Vec<(PlaylistID, ParentProblem)> = Vec::new();
        let mut c: usize = 0;
        while c < n
            invariant
                n == ps.len(),
                c <= n,
                ids == ids_of(ps),
                self@.playlists.len() == n,
                self@.top_level == old(self)@.top_level,
                forall|j: int| 0 <= j < n ==> (#[trigger] self@.playlists[j]) == (PlaylistView {
                    parent_id: if j < c { linked_parent(ps, j) } else { ps[j].parent_id },
                    children: linked_children(ps, j, c as int),
                    ..ps[j]
                }),
                problems@ == parent_problems(ps, c as int),
            decreases n - c,
        {
            let cid = self.playlists[c].get_id();
            let pid = self.playlists[c].get_parent_id();
            assert(ids_of(self@.playlists) =~= ids);
            match pid {
                Some(p) => {
                    if p == cid {
                        self.playlist_at_mut(c).set_parent_id(None);
                        problems.push((cid, ParentProblem::OwnParent));
                    } else {
                        match self.find(p) {
                            None => {
                                self.playlist_at_mut(c).set_parent_id(None);
                                problems.push((cid, ParentProblem::MissingParent));
                            },
                            Some(k) => {
                                self.playlist_at_mut(k).push_child(cid);
                            },
                        }
                    }
                },
                None => {},
            }
            c += 1;
        }
        assert(self@.playlists =~= linked(ps));
        problems
    }
}

impl PlaylistTree {
    /// The group sorted by position, then ID (insertion sort).
    fn sort_group(&self, g: &Vec<PlaylistID>) -> (r: Vec<PlaylistID>)
        ensures
            r@.to_multiset() == g@.to_multiset(),
            r@.len() == g@.len(),
            group_sorted(self@.playlists, r@),
    {
        let ghost ps = self@.playlists;
        let mut r: Vec<PlaylistID> = Vec::new();
        let mut rk: Vec<u64> = Vec::new();
        let mut n: usize = 0;
        while n < g.len()
            invariant
                n <= g@.len(),
                ps == self@.playlists,
                r@.len() == n,
                rk@.len() == n,
                forall|i: int| 0 <= i < n ==> #[trigger] rk@[i] == order_of(ps, r@[i]),
                r@.to_multiset() == g@.take(n as int).to_multiset(),
                group_sorted(ps, r@),
            decreases g.len() - n,
        {
            let x = g[n];
            let kx = self.order_of_id(x);
            let mut j: usize = r.len();
            while j > 0 && (kx < rk[j - 1] || (kx == rk[j - 1] && x.as_inner() < r[j - 1].as_inner()))
                invariant
                    j <= r@.len(),
                    r@.len() == n,
                    rk@.len() == n,
                    kx == order_of(ps, x),
                    forall|i: int| 0 <= i < n ==> #[trigger] rk@[i] == order_of(ps, r@[i]),
                    forall|i: int| j <= i < n ==> !group_key_le(ps, #[trigger] r@[i], x),
                decreases j,
            {
                j -= 1;
            }
            let ghost old_r = r@;
            let ghost old_rk = rk@;
            proof {
                if j > 0 {
                    assert(rk@[j - 1] == order_of(ps, r@[j - 1]));
                    assert(group_key_le(ps, r@[j - 1], x));
                }
            }
            r.insert(j, x);
            rk.insert(j, kx);
            proof {
                assert(g@.take(n + 1) =~= g@.take(n as int).push(x));
                vstd::seq_lib::to_multiset_build(g@.take(n as int), x);
                vstd::seq_lib::to_multiset_insert(old_r, j as int, x);
                assert(r@ =~= old_r.insert(j as int, x));
                assert forall|i: int| 0 <= i < n + 1 implies #[trigger] rk@[i] == order_of(ps, r@[i]) by {
                    if i < j {
                        assert(rk@[i] == old_rk[i] && r@[i] == old_r[i]);
                    } else if i > j {
                        assert(rk@[i] == old_rk[i - 1] && r@[i] == old_r[i - 1]);
                    }
                }
                assert forall|a: int, b: int| 0 <= a < b < r@.len() implies group_key_le(ps, #[trigger] r@[a], #[trigger] r@[b]) by {
                    if b < j {
                        assert(r@[a] == old_r[a] && r@[b] == old_r[b]);
                    } else if b == j {
                        assert(r@[b] == x && r@[a] == old_r[a]);
                        assert(group_key_le(ps, old_r[a], old_r[j - 1]));
                    } else if a == j {
                        assert(r@[a] == x && r@[b] == old_r[b - 1]);
                        assert(!group_key_le(ps, old_r[b - 1], x));
                    } else if a < j {
                        assert(r@[a] == old_r[a] && r@[b] == old_r[b - 1]);
                    } else {
                        assert(r@[a] == old_r[a - 1] && r@[b] == old_r[b - 1]);
                    }
                }
            }
            n += 1;
        }
        assert(g@.take(g@.len() as int) =~= g@);
        r
    }
}

proof fn lemma_order_of_same(a: Seq<PlaylistView>, b: Seq<PlaylistView>, id: PlaylistID)
    requires
        ids_of(a) == ids_of(b),
        forall|i: int| 0 <= i < a.len() ==> (#[trigger] a[i]).parent_order == b[i].parent_order,
    ensures
        order_of(a, id) == order_of(b, id),
{
    assert(a.len() == ids_of(a).len() && b.len() == ids_of(b).len());
    if has_id(ids_of(a), id) {
        lemma_index_of(ids_of(a), id);
    }
}

/// The groups whose members are numbered: the top-level list, then each
/// playlist's children, in playlist order.
pub open spec fn groups_of(t: TreeView) -> Seq<Seq<PlaylistID>> {
    seq![t.top_level] + t.playlists.map_values(|p: PlaylistView| p.children)
}

/// The playlists after the first `k` groups were numbered in turn.
pub open spec fn renumbered_groups(ps: Seq<PlaylistView>, groups: Seq<Seq<PlaylistID>>, k: int) -> Seq<PlaylistView>
    decreases k,
{
    if k <= 0 {
        ps
    } else {
        let prev = renumbered_groups(ps, groups, k - 1);
        renumbered(prev, ids_of(prev), groups[k - 1], groups[k - 1].len() as int)
    }
}

/// The database updates made while numbering the first `k` groups in turn.
pub open spec fn group_updates(ps: Seq<PlaylistView>, groups: Seq<Seq<PlaylistID>>, k: int) -> Seq<(PlaylistID, u64)>
    decreases k,
{
    if k <= 0 {
        Seq::empty()
    } else {
        let prev = renumbered_groups(ps, groups, k - 1);
        group_updates(ps, groups, k - 1) + renumber_updates(prev, ids_of(prev), groups[k - 1], groups[k - 1].len() as int)
    }
}

proof fn lemma_renumbered_groups_ids(ps: Seq<PlaylistView>, groups: Seq<Seq<PlaylistID>>, k: int)
    ensures
        ids_of(renumbered_groups(ps, groups, k)) == ids_of(ps),
        renumbered_groups(ps, groups, k).len() == ps.len(),
        forall|i: int| 0 <= i < ps.len() ==> (#[trigger] renumbered_groups(ps, groups, k)[i]) == (PlaylistView {
            parent_order: renumbered_groups(ps, groups, k)[i].parent_order,
            ..ps[i]
        }),
    decreases k,
{
    if k > 0 {
        lemma_renumbered_groups_ids(ps, groups, k - 1);
        let prev = renumbered_groups(ps, groups, k - 1);
        lemma_renumbered_ids(prev, ids_of(prev), groups[k - 1], groups[k - 1].len() as int);
    }
}

/// The groups are numbered one after another: no ID occurs twice within a
/// group or in two groups, each group fits the orders, and each member
/// names a playlist.
pub open spec fn numberable_groups(ps: Seq<PlaylistView>, groups: Seq<Seq<PlaylistID>>) -> bool {
    &&& forall|k: int| 0 <= k < groups.len() ==> (#[trigger] groups[k]).len() <= u64::MAX && unique_ids(groups[k])
    &&& forall|k: int, n: int| 0 <= k < groups.len() && 0 <= n < groups[k].len() ==> has_id(ids_of(ps), #[trigger] groups[k][n])
    &&& forall|k1: int, k2: int, n1: int, n2: int|
        0 <= k1 < groups.len() && 0 <= k2 < groups.len() && k1 != k2 && 0 <= n1 < groups[k1].len() && 0 <= n2 < groups[k2].len()
        ==> #[trigger] groups[k1][n1] != #[trigger] groups[k2][n2]
}

/// The playlist with this ID is in none of the groups.
pub open spec fn in_no_group(groups: Seq<Seq<PlaylistID>>, id: PlaylistID) -> bool {
    forall|k: int| 0 <= k < groups.len() ==> !(#[trigger] groups[k]).contains(id)
}

proof fn lemma_groups_numbered_upto(ps: Seq<PlaylistView>, groups: Seq<Seq<PlaylistID>>, k: int)
    requires
        0 <= k <= groups.len(),
        numberable_groups(ps, groups),
    ensures
        forall|g: int, n: int| 0 <= g < k && 0 <= n < groups[g].len() ==>
            order_of(renumbered_groups(ps, groups, k), #[trigger] groups[g][n]) == n,
        forall|i: int| 0 <= i < ps.len() && (forall|g: int| 0 <= g < k ==> !(#[trigger] groups[g]).contains(ps[i].id)) ==>
            (#[trigger] renumbered_groups(ps, groups, k)[i]) == ps[i],
    decreases k,
{
    if k > 0 {
        lemma_groups_numbered_upto(ps, groups, k - 1);
        lemma_renumbered_groups_ids(ps, groups, k - 1);
        let prev = renumbered_groups(ps, groups, k - 1);
        let group = groups[k - 1];
        let cur = renumbered_groups(ps, groups, k);
        assert(ids_of(prev) == ids_of(ps));
        assert forall|n: int| 0 <= n < group.len() implies #[trigger] has_id(ids_of(prev), group[n]) by {
            assert(has_id(ids_of(ps), groups[k - 1][n]));
        }
        law_renumbered_positions(prev, group);
        lemma_renumbered_ids(prev, ids_of(prev), group, group.len() as int);
        assert(ids_of(cur) == ids_of(ps));
        assert forall|g: int, n: int| 0 <= g < k && 0 <= n < groups[g].len() implies
            order_of(cur, #[trigger] groups[g][n]) == n by {
            if g < k - 1 {
                let id = groups[g][n];
                assert(has_id(ids_of(ps), id));
                lemma_index_of(ids_of(ps), id);
                let j = index_of(ids_of(ps), id);
                assert(prev[j].id == id);
                if group.contains(id) {
                    let m = choose|m: int| 0 <= m < group.len() && group[m] == id;
                    assert(groups[k - 1][m] == groups[g][n]);
                }
                assert(cur[j] == prev[j]);
            }
        }
        assert forall|i: int| 0 <= i < ps.len() && (forall|g: int| 0 <= g < k ==> !(#[trigger] groups[g]).contains(ps[i].id)) implies
            (#[trigger] cur[i]) == ps[i] by {
            assert(!groups[k - 1].contains(ps[i].id));
            assert(prev[i].id == ps[i].id);
            assert(cur[i] == prev[i]);
        }
    }
}

/// Numbering groups one after another: when no ID occurs twice within a
/// group or in two groups, and each member names a playlist, every member
/// ends up with its position in its own group as its order, and every
/// playlist in no group keeps its order.
pub proof fn law_groups_numbered(ps: Seq<PlaylistView>, groups: Seq<Seq<PlaylistID>>)
    requires
        numberable_groups(ps, groups),
    ensures
        forall|g: int, n: int| 0 <= g < groups.len() && 0 <= n < groups[g].len() ==>
            order_of(renumbered_groups(ps, groups, groups.len() as int), #[trigger] groups[g][n]) == n,
        forall|i: int| 0 <= i < ps.len() && in_no_group(groups, ps[i].id) ==>
            (#[trigger] renumbered_groups(ps, groups, groups.len() as int)[i]) == ps[i],
{
    lemma_groups_numbered_upto(ps, groups, groups.len() as int);
}

/// The tree as the database hands it over: no two playlists share an ID, and
/// the top-level list names, once each, playlists that exist and have no
/// parent.
pub open spec fn consistent_tree(t: TreeView) -> bool {
    &&& unique_ids(ids_of(t.playlists))
    &&& unique_ids(t.top_level)
    &&& forall|n: int| 0 <= n < t.top_level.len() ==> has_id(ids_of(t.playlists), #[trigger] t.top_level[n])
        && t.playlists[index_of(ids_of(t.playlists), t.top_level[n])].parent_id is None
}

proof fn lemma_linked_children_member(ps: Seq<PlaylistView>, k: int, n: int, x: PlaylistID)
    requires
        0 <= n <= ps.len(),
        linked_children(ps, k, n).contains(x),
    ensures
        exists|m: int| 0 <= m < n && ps[m].id == x && #[trigger] links_to(ps, m, k),
    decreases n,
{
    if n > 0 {
        let rest = linked_children(ps, k, n - 1);
        if links_to(ps, n - 1, k) && x == ps[n - 1].id {
            assert(links_to(ps, n - 1, k));
        } else {
            if links_to(ps, n - 1, k) {
                let s = rest.push(ps[n - 1].id);
                let i = choose|i: int| 0 <= i < s.len() && #[trigger] s[i] == x;
                assert(rest[i] == x);
            }
            assert(rest.contains(x));
            lemma_linked_children_member(ps, k, n - 1, x);
        }
    }
}

proof fn lemma_linked_children_len(ps: Seq<PlaylistView>, k: int, n: int)
    requires
        0 <= n,
    ensures
        linked_children(ps, k, n).len() <= n,
    decreases n,
{
    if n > 0 {
        lemma_linked_children_len(ps, k, n - 1);
    }
}

proof fn lemma_linked_children_unique(ps: Seq<PlaylistView>, k: int, n: int)
    requires
        0 <= n <= ps.len(),
        unique_ids(ids_of(ps)),
    ensures
        unique_ids(linked_children(ps, k, n)),
    decreases n,
{
    if n > 0 {
        lemma_linked_children_unique(ps, k, n - 1);
        let rest = linked_children(ps, k, n - 1);
        if links_to(ps, n - 1, k) {
            let x = ps[n - 1].id;
            assert forall|i: int| 0 <= i < rest.len() implies rest[i] != x by {
                if rest[i] == x {
                    assert(rest.contains(rest[i]));
                    lemma_linked_children_member(ps, k, n - 1, x);
                    let m = choose|m: int| 0 <= m < n - 1 && ps[m].id == x && #[trigger] links_to(ps, m, k);
                    assert(ids_of(ps)[m] == ids_of(ps)[n - 1]);
                }
            }
            let s = rest.push(x);
            assert forall|i: int, j: int| 0 <= i < s.len() && 0 <= j < s.len() && i != j implies
                #[trigger] s[i] != #[trigger] s[j] by {
                if i < rest.len() && j < rest.len() {
                    assert(rest[i] != rest[j]);
                } else if i < rest.len() {
                    assert(rest[i] != x);
                } else {
                    assert(rest[j] != x);
                }
            }
        }
    }
}

proof fn lemma_unique_by_multiset(s: Seq<PlaylistID>, t: Seq<PlaylistID>)
    requires
        unique_ids(s),
        s.to_multiset() == t.to_multiset(),
    ensures
        unique_ids(t),
{
    assert forall|i: int, j: int| 0 <= i < s.len() && 0 <= j < s.len() && i != j implies s[i] != s[j] by {
        assert(s[i] != s[j]);
    }
    assert(s.no_duplicates());
    s.lemma_multiset_has_no_duplicates();
    t.lemma_multiset_has_no_duplicates_conv();
    assert forall|i: int, j: int| 0 <= i < t.len() && 0 <= j < t.len() && i != j implies
        #[trigger] t[i] != #[trigger] t[j] by {
        assert(t.no_duplicates());
    }
}

proof fn lemma_rebuilt_groups_numberable(ps: Seq<PlaylistView>, old_top: Seq<PlaylistID>, pre: Seq<PlaylistView>,
    top: Seq<PlaylistID>)
    requires
        consistent_tree(TreeView { playlists: ps, top_level: old_top }),
        ids_of(pre) == ids_of(ps),
        pre.len() == ps.len(),
        ps.len() <= u64::MAX,
        top.len() <= u64::MAX,
        top.to_multiset() == old_top.to_multiset(),
        forall|i: int| 0 <= i < pre.len() ==> (#[trigger] pre[i]).children.to_multiset()
            == linked_children(ps, i, ps.len() as int).to_multiset(),
    ensures
        numberable_groups(pre, groups_of(TreeView { playlists: pre, top_level: top })),
{
    let n = ps.len() as int;
    let ids = ids_of(ps);
    let groups = groups_of(TreeView { playlists: pre, top_level: top });
    assert(groups.len() == n + 1);
    assert(groups[0] == top);
    assert forall|k: int| 0 <= k < n implies #[trigger] groups[k + 1] == pre[k].children by {}
    // Where each member of a group sits among the playlists, and what it names as parent.
    assert forall|k: int, x: PlaylistID| 0 <= k < n && #[trigger] groups[k + 1].contains(x) implies
        has_id(ids, x) && ps[index_of(ids, x)].parent_id is Some && links_to(ps, index_of(ids, x), k) by {
        assert(pre[k].children.to_multiset().count(x) > 0);
        assert(linked_children(ps, k, n).contains(x));
        lemma_linked_children_member(ps, k, n, x);
        let m = choose|m: int| 0 <= m < n && ps[m].id == x && #[trigger] links_to(ps, m, k);
        assert(ids[m] == x);
        lemma_index_of(ids, x);
        let j = index_of(ids, x);
        if j != m {
            assert(ids[j] == ids[m]);
        }
    }
    assert forall|x: PlaylistID| #[trigger] top.contains(x) implies
        has_id(ids, x) && ps[index_of(ids, x)].parent_id is None by {
        assert(old_top.to_multiset().count(x) > 0);
        let t = choose|t: int| 0 <= t < old_top.len() && old_top[t] == x;
        assert(has_id(ids, old_top[t]));
    }
    assert forall|k: int| 0 <= k < groups.len() implies
        (#[trigger] groups[k]).len() <= u64::MAX && unique_ids(groups[k]) by {
        if k == 0 {
            lemma_unique_by_multiset(old_top, top);
        } else {
            lemma_linked_children_unique(ps, k - 1, n);
            lemma_unique_by_multiset(linked_children(ps, k - 1, n), pre[k - 1].children);
            lemma_linked_children_len(ps, k - 1, n);
            assert(pre[k - 1].children.len() == pre[k - 1].children.to_multiset().len());
        }
    }
    assert forall|k: int, m: int| 0 <= k < groups.len() && 0 <= m < groups[k].len() implies
        has_id(ids_of(pre), #[trigger] groups[k][m]) by {
        assert(groups[k].contains(groups[k][m]));
        if k == 0 {
            assert(top.contains(groups[k][m]));
        } else {
            assert(groups[(k - 1) + 1].contains(groups[k][m]));
        }
    }
    assert forall|k1: int, k2: int, n1: int, n2: int|
        0 <= k1 < groups.len() && 0 <= k2 < groups.len() && k1 != k2 && 0 <= n1 < groups[k1].len() && 0 <= n2 < groups[k2].len()
        implies #[trigger] groups[k1][n1] != #[trigger] groups[k2][n2] by {
        let x = groups[k1][n1];
        if x == groups[k2][n2] {
            assert(groups[k1].contains(x));
            assert(groups[k2].contains(x));
            if k1 == 0 {
                assert(top.contains(x));
                assert(groups[(k2 - 1) + 1].contains(x));
            } else if k2 == 0 {
                assert(top.contains(x));
                assert(groups[(k1 - 1) + 1].contains(x));
            } else {
                assert(groups[(k1 - 1) + 1].contains(x));
                assert(groups[(k2 - 1) + 1].contains(x));
            }
        }
    }
}

/// The playlists as they stand once linked and sorted, before numbering:
/// linked anew, with the given children.
pub open spec fn before_numbering(ps: Seq<PlaylistView>, children: Seq<PlaylistView>) -> Seq<PlaylistView> {
    Seq::new(ps.len(), |i: int| PlaylistView { children: children[i].children, ..linked(ps)[i] })
}

/// Rebuilds every playlist's children from the parents they name, after all
/// playlists were added from the database: a playlist naming itself or a
/// missing playlist as its parent loses its parent (and is reported); every
/// other one becomes a child of its parent. The top-level list and every
/// children list are then sorted by position, then ID, and numbered in
/// turn (the top-level list first) from 0 without gaps. Returns the
/// playlists whose position changed, with their new position, and the
/// parent problems found.
pub fn rebuild_children(tree: &mut PlaylistTree) -> (r: (Vec<(PlaylistID, u64)>, Vec<(PlaylistID, ParentProblem)>))
    ensures
        final(tree)@.playlists.len() == old(tree)@.playlists.len(),
        ids_of(final(tree)@.playlists) == ids_of(old(tree)@.playlists),
        final(tree)@.top_level.to_multiset() == old(tree)@.top_level.to_multiset(),
        group_sorted(old(tree)@.playlists, final(tree)@.top_level),
        forall|i: int| 0 <= i < final(tree)@.playlists.len() ==> (#[trigger] final(tree)@.playlists[i]).children.to_multiset()
            == linked_children(old(tree)@.playlists, i, old(tree)@.playlists.len() as int).to_multiset(),
        forall|i: int| 0 <= i < final(tree)@.playlists.len() ==>
            group_sorted(old(tree)@.playlists, (#[trigger] final(tree)@.playlists[i]).children),
        final(tree)@.playlists == renumbered_groups(before_numbering(old(tree)@.playlists, final(tree)@.playlists),
            groups_of(final(tree)@), groups_of(final(tree)@).len() as int),
        r.0@ == group_updates(before_numbering(old(tree)@.playlists, final(tree)@.playlists),
            groups_of(final(tree)@), groups_of(final(tree)@).len() as int),
        consistent_tree(old(tree)@) ==> forall|g: int, n: int| 0 <= g < groups_of(final(tree)@).len()
            && 0 <= n < groups_of(final(tree)@)[g].len() ==>
            order_of(final(tree)@.playlists, #[trigger] groups_of(final(tree)@)[g][n]) == n,
        r.1@ == parent_problems(old(tree)@.playlists, old(tree)@.playlists.len() as int),
{
    let ghost ps = old(tree)@.playlists;
    let ghost ids = ids_of(ps);
    let problems = tree.link_children();
    let ghost lk = tree@.playlists;
    proof {
        assert(ids_of(lk) =~= ids);
    }
    let mut top: Vec<PlaylistID> = Vec::new();
    std::mem::swap(&mut top, &mut tree.top_level);
    let sorted_top = tree.sort_group(&top);
    proof {
        assert forall|a: PlaylistID, b: PlaylistID| group_key_le(lk, a, b) == group_key_le(ps, a, b) by {
            lemma_order_of_same(lk, ps, a);
            lemma_order_of_same(lk, ps, b);
        }
    }
    assert(group_sorted(ps, sorted_top@));
    tree.top_level = copy_ids(&sorted_top);
    assert(sorted_top@.len() <= usize::MAX) by {
        assert(sorted_top@.len() == sorted_top.len());
    }
    let n = tree.len();
    let mut i: usize = 0;
    while i < n
        invariant
            n == ps.len(),
            i <= n,
            ids == ids_of(ps),
            lk == linked(ps),
            tree@.playlists.len() == n,
            tree@.top_level == sorted_top@,
            forall|j: int| 0 <= j < n ==> (#[trigger] tree@.playlists[j]) == (PlaylistView {
                children: tree@.playlists[j].children,
                ..lk[j]
            }),
            forall|j: int| 0 <= j < n ==> (#[trigger] tree@.playlists[j]).children.to_multiset() == lk[j].children.to_multiset(),
            forall|j: int| 0 <= j < i ==> group_sorted(ps, (#[trigger] tree@.playlists[j]).children),
        decreases n - i,
    {
        let kids = tree.playlist_at_mut(i).take_children();
        let ghost cur = tree@.playlists;
        proof {
            assert(ids_of(cur) =~= ids);
            assert forall|a: PlaylistID, b: PlaylistID| group_key_le(cur, a, b) == group_key_le(ps, a, b) by {
                lemma_order_of_same(cur, ps, a);
                lemma_order_of_same(cur, ps, b);
            }
        }
        let sorted_kids = tree.sort_group(&kids);
        assert(group_sorted(ps, sorted_kids@));
        tree.playlist_at_mut(i).set_children(sorted_kids);
        i += 1;
    }
    let ghost pre = tree@.playlists;
    let ghost groups = groups_of(tree@);
    proof {
        assert(pre =~= before_numbering(ps, pre));
        assert(groups[0] == sorted_top@);
    }
    let mut updates = tree.redo_parent_orders(&sorted_top);
    assert(renumbered_groups(pre, groups, 0) == pre);
    assert(group_updates(pre, groups, 0) == Seq::<(PlaylistID, u64)>::empty());
    assert(renumbered_groups(pre, groups, 1) == renumbered(pre, ids_of(pre), sorted_top@, sorted_top@.len() as int));
    assert(group_updates(pre, groups, 1) =~= renumber_updates(pre, ids_of(pre), sorted_top@, sorted_top@.len() as int));
    let mut i: usize = 0;
    while i < n
        invariant
            n == pre.len(),
            i <= n,
            groups == groups_of(TreeView { playlists: pre, top_level: sorted_top@ }),
            tree@.top_level == sorted_top@,
            tree@.playlists == renumbered_groups(pre, groups, i + 1),
            updates@ == group_updates(pre, groups, i + 1),
        decreases n - i,
    {
        proof {
            lemma_renumbered_groups_ids(pre, groups, i + 1);
            assert(groups[i + 1] == pre[i as int].children);
        }
        let ghost prev = tree@.playlists;
        let kids = vstd::slice::slice_to_vec(tree.playlists[i].get_children());
        assert(kids@ == prev[i as int].children);
        assert(kids@ == groups[i + 1]);
        let mut more = tree.redo_parent_orders(&kids);
        assert(tree@.playlists == renumbered(prev, ids_of(prev), groups[i + 1], groups[i + 1].len() as int));
        assert(tree@.playlists == renumbered_groups(pre, groups, i + 2));
        updates.append(&mut more);
        assert(updates@ == group_updates(pre, groups, i + 2));
        i += 1;
    }
    proof {
        lemma_renumbered_groups_ids(pre, groups, n + 1);
        let fin = tree@.playlists;
        assert(fin.map_values(|p: PlaylistView| p.children) =~= pre.map_values(|p: PlaylistView| p.children));
        assert(groups_of(tree@) == groups);
        assert(groups.len() == n + 1);
        assert(fin =~= fin);
        assert(before_numbering(ps, fin) =~= pre);
        assert forall|j: int| 0 <= j < n implies (#[trigger] fin[j]).children.to_multiset()
            == linked_children(ps, j, n as int).to_multiset() by {
            assert(fin[j].children == pre[j].children);
            assert(lk[j].children == linked_children(ps, j, n as int));
        }
        assert forall|j: int| 0 <= j < n implies group_sorted(ps, (#[trigger] fin[j]).children) by {
            assert(fin[j].children == pre[j].children);
        }
        assert(ids_of(fin) =~= ids_of(ps)) by {
            assert(ids_of(pre) =~= ids_of(ps));
        }
        if consistent_tree(old(tree)@) {
            assert(ids_of(pre) =~= ids_of(ps));
            lemma_rebuilt_groups_numberable(ps, old(tree)@.top_level, pre, sorted_top@);
            law_groups_numbered(pre, groups);
        }
    }
    (updates, problems)
}

} // verus!
