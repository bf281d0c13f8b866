use monlam::grid::{drop_target_track, DragMove, GridItemHelper, GridSampleHelper};
use monlam::groups::{
    group_at, group_location, plan_group_creation, plan_group_rename, validate_group_name,
    GroupError,
};
use monlam::project::Project;
use monlam::tracks::{Sample, TrackItemType};

#[test]
fn group_names_are_checked_slash_first() {
    assert_eq!(validate_group_name("drums"), Ok(()));
    assert_eq!(validate_group_name("a/b"), Err(GroupError::NameHasSlash));
    assert_eq!(validate_group_name(" / "), Err(GroupError::NameHasSlash));
    assert_eq!(validate_group_name("  "), Err(GroupError::NameEmpty));
    assert_eq!(validate_group_name(""), Err(GroupError::NameEmpty));
}

#[test]
fn group_error_messages() {
    assert_eq!(GroupError::NameHasSlash.message("x"), "Group name cannot contain '/'");
    assert_eq!(GroupError::NameEmpty.message("x"), "Group name cannot be empty");
    assert_eq!(GroupError::NameTaken.message("drums"), "A Group with name 'drums' already exists");
}

#[test]
fn group_folders() {
    let g = group_location("drums", "/proj");
    assert_eq!(g.name, "drums");
    assert_eq!(g.path, "/proj/drums");
    assert_eq!(g.render_path, "/proj/drums/render.wav");
    let g = group_at("/proj/bass");
    assert_eq!(g.name, "bass");
    assert_eq!(g.render_path, "/proj/bass/render.wav");
}

#[test]
fn creating_a_group() {
    assert!(matches!(plan_group_creation("drums", "/proj", false), Ok(g) if g.path == "/proj/drums"));
    assert!(matches!(plan_group_creation("drums", "/proj", true), Err(GroupError::NameTaken)));
    assert!(matches!(plan_group_creation("", "/proj", false), Err(GroupError::NameEmpty)));
    assert!(matches!(plan_group_creation("a/b", "/proj", true), Err(GroupError::NameHasSlash)));
}

#[test]
fn renaming_a_group() {
    assert!(matches!(plan_group_rename("/proj/a", "b", "/proj", false), Ok(g) if g.path == "/proj/b"));
    assert!(matches!(plan_group_rename("/proj/a", "b", "/proj", true), Err(GroupError::NameTaken)));
    // renaming onto its own folder is allowed
    assert!(matches!(plan_group_rename("/proj/a", "a", "/proj", true), Ok(g) if g.name == "a"));
    assert!(matches!(plan_group_rename("/proj/a", " ", "/proj", false), Err(GroupError::NameEmpty)));
}

fn project_with_items() -> Project<()> {
    let mut p: Project<()> = Project::new();
    p.add_sample_to_track(0, Sample::with_media(()));
    let mut g = Sample::with_media(());
    g.item_type = TrackItemType::Group;
    g.name = "drums".to_string();
    p.add_sample_to_track(0, g);
    p
}

#[test]
fn dragging_items_between_and_along_tracks() {
    let p = project_with_items();
    let plan = GridItemHelper::process_active_drag(&p.tracks, 2, 0, 1, TrackItemType::Group).unwrap();
    assert_eq!(plan.source_track_idx, 0);
    assert_eq!(plan.item_idx, 1);
    assert_eq!(plan.target_track_idx, 2);
    assert_eq!(plan.movement, DragMove::AcrossTracks { source_track_id: 0, item_id: 1, target_track_id: 2 });
    assert!(GridItemHelper::process_active_drag(&p.tracks, 2, 0, 1, TrackItemType::Sample).is_none());
    assert!(GridItemHelper::process_active_drag(&p.tracks, 2, 9, 1, TrackItemType::Group).is_none());
    let plan = GridSampleHelper::process_active_drag(&p.tracks, 0, 0, 0).unwrap();
    assert_eq!(plan.movement, DragMove::WithinTrack { track_id: 0, item_id: 0 });
    assert!(GridSampleHelper::process_active_drag(&p.tracks, 0, 0, 5).is_none());
}

#[test]
fn move_kind_depends_on_the_tracks() {
    assert_eq!(GridItemHelper::move_item(1, 4, 1), DragMove::WithinTrack { track_id: 1, item_id: 4 });
    assert_eq!(
        GridSampleHelper::move_sample(1, 4, 2),
        DragMove::AcrossTracks { source_track_id: 1, item_id: 4, target_track_id: 2 }
    );
}

#[test]
fn drops_land_on_existing_rows_only() {
    let p: Project<()> = Project::new();
    assert_eq!(drop_target_track(&p.tracks, 3), Some(3));
    assert_eq!(drop_target_track(&p.tracks, 4), None);
}
