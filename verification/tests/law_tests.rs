use monlam::paths::audio_files_only;
use monlam::project::Project;
use monlam::tabs::Tab;
use monlam::tracks::{Sample, TrackItemType};
use std::collections::HashSet;

fn ids_distinct(p: &Project<()>) -> bool {
    let track_ids: HashSet<usize> = p.tracks.iter().map(|t| t.id).collect();
    if track_ids.len() != p.tracks.len() {
        return false;
    }
    p.tracks.iter().all(|t| {
        let ids: HashSet<usize> = t.samples.iter().map(|s| s.id).collect();
        ids.len() == t.samples.len() && t.id < p.next_track_id
    })
}

#[test]
fn operations_keep_ids_distinct() {
    let mut p: Project<()> = Project::new();
    assert!(ids_distinct(&p));
    p.create_track();
    p.add_sample_to_track(5, Sample::with_media(()));
    p.add_sample_to_track(5, Sample::with_media(()));
    p.delete_sample(5, 0);
    p.add_sample_to_track(5, Sample::with_media(()));
    p.toggle_track_mute(5);
    p.place_group_on_track(2, &"g".to_string(), ());
    p.place_group_on_track(5, &"g".to_string(), ());
    assert!(ids_distinct(&p));
    let ids: Vec<usize> = p.tracks[4].samples.iter().map(|s| s.id).collect();
    assert_eq!(ids, vec![1, 2, 3]);
}

#[test]
fn moving_between_tracks_can_repeat_an_id() {
    let mut p: Project<()> = Project::new();
    p.add_sample_to_track(0, Sample::with_media(()));
    p.add_sample_to_track(1, Sample::with_media(()));
    p.move_sample_between_tracks(0, 0, 1);
    assert_eq!(p.tracks[1].samples[0].id, 0);
    assert_eq!(p.tracks[1].samples[1].id, 0);
}

#[test]
fn a_group_sits_on_one_track_at_most() {
    let mut p: Project<()> = Project::new();
    let g = "drums".to_string();
    for target in [0usize, 3, 1, 1, 2] {
        p.place_group_on_track(target, &g, ());
        let count: usize = p
            .tracks
            .iter()
            .map(|t| t.samples.iter().filter(|s| s.item_type == TrackItemType::Group && s.name == g).count())
            .sum();
        assert_eq!(count, 1);
        assert_eq!(p.locate_group_item(&g).map(|l| l.0), Some(target));
    }
}

fn tab(id: usize) -> Tab {
    Tab { id, name: format!("t{}", id), is_group: false, group_name: None }
}

#[test]
fn next_then_previous_returns() {
    for active in [0usize, 3, 7] {
        let mut p: Project<()> = Project::new();
        p.tabs = vec![tab(0), tab(3), tab(7)];
        p.active_tab_id = active;
        p.switch_to_next_tab();
        p.switch_to_previous_tab();
        assert_eq!(p.active_tab_id, active);
        p.switch_to_previous_tab();
        p.switch_to_next_tab();
        assert_eq!(p.active_tab_id, active);
    }
}

#[test]
fn closing_keeps_an_open_tab_active() {
    for closed in [0usize, 3, 7] {
        for active in [0usize, 3, 7] {
            let mut p: Project<()> = Project::new();
            p.tabs = vec![tab(0), tab(3), tab(7)];
            p.active_tab_id = active;
            p.close_tab(closed);
            assert!(p.tabs.iter().any(|t| t.id == p.active_tab_id));
        }
    }
}

#[test]
fn opening_group_tabs_keeps_ids_distinct() {
    let mut p: Project<()> = Project::new();
    p.tabs = vec![tab(4), tab(2)];
    let a = p.open_new_group_tab(&"a".to_string());
    let b = p.open_new_group_tab(&"b".to_string());
    assert_eq!((a, b), (5, 6));
    let ids: HashSet<usize> = p.tabs.iter().map(|t| t.id).collect();
    assert_eq!(ids.len(), p.tabs.len());
}

#[test]
fn toggles_twice_restore() {
    let mut p: Project<()> = Project::new();
    assert!(p.toggle_playback());
    assert!(!p.toggle_playback());
    assert!(!p.is_playing);
    p.toggle_loop_selection();
    assert!(p.loop_enabled);
    p.toggle_loop_selection();
    assert!(!p.loop_enabled);
    for id in 0..4 {
        p.toggle_track_solo(id);
        p.toggle_track_record(id);
        p.toggle_track_solo(id);
        p.toggle_track_record(id);
    }
    assert!(p.tracks.iter().all(|t| !t.soloed && !t.recording && !t.muted));
}

#[test]
fn only_audio_files_are_kept() {
    let paths = vec![
        "a.wav".to_string(),
        "b.txt".to_string(),
        "C.FLAC".to_string(),
        "d".to_string(),
        "e.ogg".to_string(),
    ];
    assert_eq!(audio_files_only(&paths), vec!["a.wav".to_string(), "C.FLAC".to_string(), "e.ogg".to_string()]);
    assert!(audio_files_only(&vec![]).is_empty());
}
