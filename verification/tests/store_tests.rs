use gol_core::pattern::{Dir, Pattern};
use gol_core::store::{find_pattern, SavedPatterns};

#[test]
fn builtins_are_present_and_read_only() {
    let saved = SavedPatterns::default();
    assert_eq!(saved.patterns.len(), 10);
    for name in [
        "1x1",
        "2x2",
        "glider",
        "blinker",
        "toad",
        "beacon",
        "LWSS",
        "R-Pentomino",
        "face",
        "Gosper Glider Gun",
    ] {
        let p = find_pattern(&saved, &name.to_string()).expect("builtin present");
        assert_eq!(p.name, name);
        assert!(!p.deletable);
        assert!(p.is_temp);
    }
    let glider = find_pattern(&saved, &"glider".to_string()).unwrap();
    assert_eq!(glider.cells, vec![(1, 0), (2, 1), (0, 2), (1, 2), (2, 2)]);
    assert_eq!(glider.dir, Dir::NE);
    let beacon = find_pattern(&saved, &"beacon".to_string()).unwrap();
    assert_eq!(beacon.cells, vec![(0, 0), (1, 0), (0, 1), (2, 2), (2, 3), (3, 3)]);
    assert_eq!(beacon.dir, Dir::SW);
    let one = find_pattern(&saved, &"1x1".to_string()).unwrap();
    assert_eq!(one.cells, vec![(0, 0)]);
    assert_eq!(one.dir, Dir::Any);
}

#[test]
fn lookup_of_unknown_name_is_none() {
    let saved = SavedPatterns::default();
    assert!(find_pattern(&saved, &"no such pattern".to_string()).is_none());
}

#[test]
fn insert_adds_and_replaces() {
    let mut saved = SavedPatterns::new();
    saved.insert(Pattern::new_deleatable("mine".to_string(), vec![(0, 0)]));
    assert_eq!(saved.patterns.len(), 1);
    saved.insert(Pattern::new_deleatable("mine".to_string(), vec![(0, 0), (1, 0)]));
    assert_eq!(saved.patterns.len(), 1);
    let p = find_pattern(&saved, &"mine".to_string()).unwrap();
    assert_eq!(p.cells, vec![(0, 0), (1, 0)]);
}

#[test]
fn remove_takes_a_pattern_out() {
    let mut saved = SavedPatterns::new();
    saved.insert(Pattern::new_deleatable("a".to_string(), vec![(0, 0)]));
    saved.insert(Pattern::new_deleatable("b".to_string(), vec![(1, 1)]));
    saved.remove(&"a".to_string());
    assert!(find_pattern(&saved, &"a".to_string()).is_none());
    assert!(find_pattern(&saved, &"b".to_string()).is_some());
    assert_eq!(saved.patterns.len(), 1);
    saved.remove(&"not there".to_string());
    assert_eq!(saved.patterns.len(), 1);
}

#[test]
fn mark_as_not_temp_enables_saving() {
    let mut saved = SavedPatterns::new();
    saved.insert(Pattern::new_deleatable("keep".to_string(), vec![(0, 0)]));
    assert_eq!(saved.savable_patterns().len(), 0);
    saved.mark_as_not_temp(&"keep".to_string());
    let savable = saved.savable_patterns();
    assert_eq!(savable.len(), 1);
    assert_eq!(savable[0].name, "keep");
    assert!(!savable[0].is_temp);
}

#[test]
fn savable_patterns_filters_temporaries() {
    // the built-ins are all temporary, so a fresh store saves nothing
    let saved = SavedPatterns::default();
    assert!(saved.savable_patterns().is_empty());
}

#[test]
fn merge_never_overwrites_builtins() {
    let mut saved = SavedPatterns::default();
    let mut impostor = Pattern::new_deleatable("glider".to_string(), vec![(0, 0)]);
    impostor.is_temp = false;
    saved.merge_loaded(vec![impostor]);
    let glider = find_pattern(&saved, &"glider".to_string()).unwrap();
    assert_eq!(glider.cells, vec![(1, 0), (2, 1), (0, 2), (1, 2), (2, 2)]);
    assert!(!glider.deletable);
}

#[test]
fn merge_replaces_deletable_patterns_and_adds_new_ones() {
    let mut saved = SavedPatterns::new();
    saved.insert(Pattern::new_deleatable("mine".to_string(), vec![(0, 0)]));
    let loaded_mine = Pattern::new_deleatable("mine".to_string(), vec![(2, 2)]);
    let loaded_new = Pattern::new_deleatable("fresh".to_string(), vec![(3, 3)]);
    saved.merge_loaded(vec![loaded_mine, loaded_new]);
    assert_eq!(saved.patterns.len(), 2);
    assert_eq!(find_pattern(&saved, &"mine".to_string()).unwrap().cells, vec![(2, 2)]);
    assert_eq!(find_pattern(&saved, &"fresh".to_string()).unwrap().cells, vec![(3, 3)]);
}
