use foundry_cli::arena::{select_arena, DebugArena, DebugNode};

fn arena_of(children: Vec<Vec<usize>>) -> DebugArena {
    DebugArena { arena: children.into_iter().map(|children| DebugNode { children }).collect() }
}

#[test]
fn two_level_arena_flattens_in_preorder_without_the_root() {
    let arena = arena_of(vec![vec![1, 2], vec![3], vec![4], vec![], vec![]]);
    let frames = arena.frames().unwrap();
    assert_eq!(frames.len(), arena.arena.len() - 1);
    assert_eq!(frames, vec![1, 3, 2, 4]);
}

#[test]
fn flatten_appends_the_subtree() {
    let arena = arena_of(vec![vec![1, 4], vec![2, 3], vec![], vec![], vec![5], vec![]]);
    let mut all = vec![99];
    arena.flatten(0, &mut all);
    assert_eq!(all, vec![99, 0, 1, 2, 3, 4, 5]);
    let mut part = Vec::new();
    arena.flatten(4, &mut part);
    assert_eq!(part, vec![4, 5]);
}

#[test]
fn lone_root_has_no_frames() {
    let arena = arena_of(vec![vec![]]);
    assert!(arena.is_well_formed());
    assert_eq!(arena.frames().unwrap(), Vec::<usize>::new());
}

#[test]
fn malformed_arenas_are_refused() {
    assert!(!arena_of(vec![]).is_well_formed());
    assert!(arena_of(vec![]).frames().is_none());
    assert!(!arena_of(vec![vec![0]]).is_well_formed());
    assert!(!arena_of(vec![vec![1], vec![0]]).is_well_formed());
    assert!(arena_of(vec![vec![1], vec![1]]).frames().is_none());
    assert!(!arena_of(vec![vec![2], vec![]]).is_well_formed());
    assert!(arena_of(vec![vec![1], vec![]]).is_well_formed());
}

#[test]
fn setup_arena_is_skipped_when_there_is_another() {
    assert_eq!(select_arena(true, 2), 1);
    assert_eq!(select_arena(true, 3), 1);
    assert_eq!(select_arena(true, 1), 0);
    assert_eq!(select_arena(false, 2), 0);
    assert_eq!(select_arena(false, 1), 0);
    assert_eq!(select_arena(true, 0), 0);
}
