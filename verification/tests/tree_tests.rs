use tsong::logical::SongID;
use tsong::playlist::{PlaylistID, Playmode, default_columns, default_sort_order};
use tsong::tree::{PlaylistTree, ParentProblem, add_playlist_from_db, rebuild_children, get_top_level_playlists,
    get_playlist_by_id, delete_playlist, new_playlist_order, create_new_playlist, NEW_PLAYLIST_NAME};

fn pid(x: u64) -> PlaylistID {
    PlaylistID::from_inner(x)
}

fn add(tree: &mut PlaylistTree, id: u64, parent: Option<u64>, order: u64) {
    add_playlist_from_db(tree, pid(id), parent.map(pid), order, format!("P{}", id), String::new(), false,
        Playmode::End, Vec::<SongID>::new(), default_columns(), default_sort_order());
}

fn order_of(tree: &PlaylistTree, id: u64) -> u64 {
    get_playlist_by_id(tree, pid(id)).unwrap().get_parent_order()
}

fn children(tree: &PlaylistTree, id: u64) -> Vec<u64> {
    get_playlist_by_id(tree, pid(id)).unwrap().get_children().iter().map(|c| c.as_inner()).collect()
}

fn top(tree: &PlaylistTree) -> Vec<u64> {
    get_top_level_playlists(tree).iter().map(|c| c.as_inner()).collect()
}

#[test]
fn rebuild_links_sorts_and_numbers() {
    let mut tree = PlaylistTree::new();
    add(&mut tree, 1, None, 10);
    add(&mut tree, 2, None, 5);
    add(&mut tree, 3, Some(1), 7);
    add(&mut tree, 4, Some(1), 7);
    add(&mut tree, 5, Some(1), 2);
    add(&mut tree, 6, Some(6), 0);
    add(&mut tree, 7, Some(99), 0);
    let (updates, problems) = rebuild_children(&mut tree);
    assert_eq!(top(&tree), vec![2, 1]);
    assert_eq!(children(&tree, 1), vec![5, 3, 4]);
    assert_eq!(order_of(&tree, 2), 0);
    assert_eq!(order_of(&tree, 1), 1);
    assert_eq!(order_of(&tree, 5), 0);
    assert_eq!(order_of(&tree, 3), 1);
    assert_eq!(order_of(&tree, 4), 2);
    assert_eq!(problems, vec![(pid(6), ParentProblem::OwnParent), (pid(7), ParentProblem::MissingParent)]);
    assert!(get_playlist_by_id(&tree, pid(6)).unwrap().get_parent_id().is_none());
    assert!(updates.contains(&(pid(2), 0)));
    assert!(updates.contains(&(pid(1), 1)));
    assert!(updates.contains(&(pid(5), 0)));
    assert!(updates.contains(&(pid(4), 2)));
    assert_eq!(updates, vec![(pid(2), 0), (pid(1), 1), (pid(5), 0), (pid(3), 1), (pid(4), 2)]);
}

#[test]
fn deleting_hands_children_to_the_grandparent() {
    let mut tree = PlaylistTree::new();
    add(&mut tree, 1, None, 0);
    add(&mut tree, 2, None, 1);
    add(&mut tree, 3, Some(2), 0);
    add(&mut tree, 4, Some(2), 1);
    rebuild_children(&mut tree);
    let updates = delete_playlist(&mut tree, pid(2));
    assert_eq!(top(&tree), vec![1, 3, 4]);
    assert_eq!(updates, vec![(pid(3), None, 1), (pid(4), None, 2)]);
    assert_eq!(order_of(&tree, 3), 1);
    assert!(get_playlist_by_id(&tree, pid(3)).unwrap().get_parent_id().is_none());
    assert!(children(&tree, 2).is_empty());
}

#[test]
fn moving_into_another_playlist() {
    let mut tree = PlaylistTree::new();
    add(&mut tree, 1, None, 0);
    add(&mut tree, 2, None, 1);
    add(&mut tree, 3, None, 2);
    add(&mut tree, 4, Some(1), 0);
    rebuild_children(&mut tree);
    let (adopted, reorders) = pid(3).move_next_to(&mut tree, Some(pid(1)), Some(pid(4)));
    assert!(adopted.is_empty());
    assert_eq!(top(&tree), vec![1, 2]);
    assert_eq!(children(&tree, 1), vec![3, 4]);
    assert_eq!(get_playlist_by_id(&tree, pid(3)).unwrap().get_parent_id(), Some(pid(1)));
    assert_eq!(order_of(&tree, 3), 0);
    assert_eq!(order_of(&tree, 4), 1);
    assert_eq!(reorders, vec![(pid(3), 0), (pid(4), 1)]);
    // back to the top level, at the end
    pid(3).move_next_to(&mut tree, None, None);
    assert_eq!(top(&tree), vec![1, 2, 3]);
    assert_eq!(children(&tree, 1), vec![4]);
    assert_eq!(order_of(&tree, 3), 2);
}

#[test]
fn new_playlists_go_last() {
    let mut tree = PlaylistTree::new();
    assert_eq!(new_playlist_order(&tree), 0);
    add(&mut tree, 1, None, 0);
    add(&mut tree, 2, None, 4);
    assert_eq!(new_playlist_order(&tree), 5);
    let order = new_playlist_order(&tree);
    create_new_playlist(&mut tree, pid(10), order);
    let p = get_playlist_by_id(&tree, pid(10)).unwrap();
    assert_eq!(p.get_name(), NEW_PLAYLIST_NAME);
    assert_eq!(p.get_rule_code(), "");
    assert_eq!(p.get_parent_order(), 5);
    assert_eq!(top(&tree), vec![1, 2, 10]);
}

#[test]
fn adding_an_existing_id_replaces_it() {
    let mut tree = PlaylistTree::new();
    add(&mut tree, 1, None, 0);
    add_playlist_from_db(&mut tree, pid(1), Some(pid(5)), 3, "Renamed".to_owned(), String::new(), true,
        Playmode::Loop, Vec::new(), default_columns(), default_sort_order());
    assert_eq!(tree.len(), 1);
    assert_eq!(get_playlist_by_id(&tree, pid(1)).unwrap().get_name(), "Renamed");
}
