use game_core::anim::{gaia_anim_map, resolve_anim, should_loop, starting_anim, unit_anim_map};
use game_core::datasource::{CompoundDataSource, DataSource};
use game_core::formation::formation_slots;
use game_core::material::{shader_filter_codes, FilterMode};
use game_core::frontend::{KeyInput, Selection, SelectionManager, SpawnedGaia, SpawnedUnits};
use game_core::team_color::TeamColor;

#[test]
fn all_12_team_color_paths_well_formed() {
    let all = [
        TeamColor::Red,
        TeamColor::Blue,
        TeamColor::Teal,
        TeamColor::Purple,
        TeamColor::Yellow,
        TeamColor::Orange,
        TeamColor::Green,
        TeamColor::Pink,
        TeamColor::Grey,
        TeamColor::LightBlue,
        TeamColor::DarkGreen,
        TeamColor::Brown,
    ];
    for c in all {
        assert!(c.mpq_path().starts_with("ReplaceableTextures"));
        assert!(c.mpq_path().ends_with(".blp"));
        assert!(c.slot() < 12);
    }
}

#[test]
fn team_color_paths_use_two_digit_slots() {
    assert_eq!(TeamColor::Red.mpq_path(), "ReplaceableTextures/TeamColor/TeamColor00.blp");
    assert_eq!(TeamColor::Brown.mpq_path(), "ReplaceableTextures/TeamColor/TeamColor11.blp");
    assert_eq!(TeamColor::LightBlue.slot(), 9);
}

#[test]
fn pan_direction_from_keys() {
    let k = KeyInput { w: true, a: false, s: false, d: true };
    assert_eq!(k.pan_direction(), (1, -1));
    let both = KeyInput { w: true, a: true, s: true, d: true };
    assert_eq!(both.pan_direction(), (0, 0));
}

#[test]
fn selection_replaced_by_click() {
    let mut s = Selection::default();
    s.select(Some(4));
    assert_eq!(s.0, vec![4]);
    s.select(Some(7));
    assert_eq!(s.0, vec![7]);
    s.select(None);
    assert!(s.0.is_empty());
}

#[test]
fn spawned_sets_claim_once() {
    let mut u = SpawnedUnits::default();
    assert!(u.claim(3));
    assert!(!u.claim(3));
    u.release(3);
    assert!(u.claim(3));
    let mut g = SpawnedGaia::default();
    assert!(g.claim(1));
    assert!(!g.claim(1));
}

#[test]
fn selection_manager_lists_ids_ascending() {
    let mut m = SelectionManager::new();
    m.add(30);
    m.add(4);
    m.add(17);
    m.add(4);
    assert_eq!(m.count(), 3);
    assert_eq!(m.get_all(), vec![4, 17, 30]);
    assert!(m.contains(17));
    m.remove(17);
    assert!(!m.contains(17));
    assert_eq!(m.get_all(), vec![4, 30]);
    m.clear();
    assert_eq!(m.count(), 0);
    assert!(m.get_all().is_empty());
}

#[test]
fn formation_fills_rings_outwards() {
    assert!(formation_slots(0).is_empty());
    assert_eq!(formation_slots(1), vec![(0, 0)]);
    let s = formation_slots(9);
    assert_eq!(s[0], (0, 0));
    assert_eq!(s[1..7], [(1, 0), (1, 1), (1, 2), (1, 3), (1, 4), (1, 5)]);
    assert_eq!(s[7..], [(2, 0), (2, 1)]);
    assert_eq!(formation_slots(19).last(), Some(&(2, 11)));
    assert_eq!(formation_slots(20).last(), Some(&(3, 0)));
}

struct Folder {
    files: Vec<(String, Vec<u8>)>,
}

impl DataSource for Folder {
    fn has(&self, path: &str) -> bool {
        self.files.iter().any(|(p, _)| p == path)
    }

    fn read(&self, path: &str) -> Option<Vec<u8>> {
        self.files.iter().find(|(p, _)| p == path).map(|(_, b)| b.clone())
    }
}

#[test]
fn compound_source_first_match_wins() {
    let mut c = CompoundDataSource::new();
    assert!(!c.has("a.mdx"));
    assert_eq!(c.read("a.mdx"), None);
    c.add(Box::new(Folder { files: vec![("a.mdx".to_string(), vec![1])] }));
    c.add(Box::new(Folder { files: vec![("a.mdx".to_string(), vec![2]), ("b.blp".to_string(), vec![3])] }));
    assert!(c.has("a.mdx"));
    assert!(c.has("b.blp"));
    assert!(!c.has("c.mdx"));
    assert_eq!(c.read("a.mdx"), Some(vec![1]));
    assert_eq!(c.read("b.blp"), Some(vec![3]));
    assert_eq!(c.read("c.mdx"), None);
}

#[test]
fn shader_filters_pad_unused_layers_with_zero() {
    assert_eq!(shader_filter_codes(&[FilterMode::Blend, FilterMode::Modulate2x]), [2, 6, 0, 0]);
    assert_eq!(shader_filter_codes(&[FilterMode::None_; 4]), [0, 0, 0, 0]);
    assert_eq!(FilterMode::AddAlpha.code(), 4);
}

fn names(v: &[&str]) -> Vec<String> {
    v.iter().map(|s| s.to_string()).collect()
}

#[test]
fn resolve_anim_takes_first_offered_candidate() {
    let avail = names(&["Run", "walk"]);
    assert_eq!(resolve_anim(&avail, &["Walk", "walk", "Run"]), Some("walk".to_string()));
    assert_eq!(resolve_anim(&avail, &["Attack"]), None);
    assert_eq!(resolve_anim(&[], &["Stand"]), None);
}

#[test]
fn unit_and_gaia_anim_maps_pick_per_role() {
    let avail = names(&["stand", "Walk", "Attack", "Stand Work", "Death"]);
    assert_eq!(
        unit_anim_map(&avail),
        [Some("stand".to_string()), Some("Walk".to_string()), Some("Attack".to_string()), Some("Stand Work".to_string())]
    );
    let avail = names(&["Stand", "Run"]);
    assert_eq!(unit_anim_map(&avail), [Some("Stand".to_string()), Some("Run".to_string()), None, Some("Stand".to_string())]);
    assert_eq!(gaia_anim_map(&avail), [Some("Stand".to_string()), Some("Run".to_string()), None, Some("Run".to_string())]);
}

#[test]
fn starting_anim_falls_back_when_no_idle_name() {
    assert_eq!(starting_anim(&names(&["Walk", "idle"])), Some("idle".to_string()));
    assert_eq!(starting_anim(&names(&["Birth", "Walk"])), Some("Walk".to_string()));
    assert_eq!(starting_anim(&names(&["Birth", "Stand Ready"])), Some("Stand Ready".to_string()));
    assert_eq!(starting_anim(&names(&["Death"])), None);
}

#[test]
fn stand_walk_and_run_animations_loop() {
    assert!(should_loop("Stand Work"));
    assert!(should_loop("WALK"));
    assert!(should_loop("run fast"));
    assert!(!should_loop("Attack - 1"));
    assert!(!should_loop("Birth"));
    assert!(!should_loop("stan"));
}
