use ttplayer::playlist::{is_audio_extension, pick_other_index, Playlist, PlaylistManager};
use ttplayer::types::{parse_play_mode, play_mode_name, AudioFormat, PlayMode, TrackInfo};

fn make_playlist(mode: PlayMode, n: usize) -> Playlist {
    let mut pl = Playlist::new("test");
    pl.play_mode = mode;
    for i in 0..n {
        let mut t = TrackInfo::from_path(&format!("/song_{i}.mp3"));
        t.metadata.title = format!("Song {i}");
        pl.items.push(t);
    }
    pl
}

#[test]
fn random_does_not_repeat_current_immediately() {
    let mut pl = make_playlist(PlayMode::Random, 10);
    pl.current_index = 3;
    // Sample many times; the very next pick must never equal current.
    for _ in 0..200 {
        let next = pl.peek_next_index().unwrap();
        assert_ne!(next, pl.current_index, "random picked current index");
        pl.current_index = next;
    }
}

#[test]
fn random_single_item_returns_self() {
    let pl = make_playlist(PlayMode::Random, 1);
    assert_eq!(pl.peek_next_index(), Some(0));
}

#[test]
fn peek_next_does_not_mutate_index() {
    let mut pl = make_playlist(PlayMode::Sequential, 5);
    pl.current_index = 2;
    let peeked = pl.peek_next_index();
    assert_eq!(peeked, Some(3));
    // current_index unchanged
    assert_eq!(pl.current_index, 2);
}

#[test]
fn sequential_at_end_returns_none() {
    let mut pl = make_playlist(PlayMode::Sequential, 3);
    pl.current_index = 2;
    assert_eq!(pl.peek_next_index(), None);
    assert_eq!(pl.next(), None);
}

#[test]
fn loop_mode_wraps_around() {
    let mut pl = make_playlist(PlayMode::Loop, 3);
    pl.current_index = 2;
    assert_eq!(pl.peek_next_index(), Some(0));
    pl.next();
    assert_eq!(pl.current_index, 0);
}

#[test]
fn loop_one_stays_on_current() {
    let mut pl = make_playlist(PlayMode::LoopOne, 3);
    pl.current_index = 1;
    assert_eq!(pl.peek_next_index(), Some(1));
    pl.next();
    assert_eq!(pl.current_index, 1);
}

#[test]
fn move_item_tracks_current_index() {
    let mut pl = make_playlist(PlayMode::Sequential, 5); // 0..4, current=0
    pl.current_index = 2;

    // Move item 2 → 0: current should follow to 0.
    pl.move_item(2, 0);
    assert_eq!(pl.current_index, 0);
    assert_eq!(pl.items[0].metadata.title, "Song 2");

    // current=0, move 1→3: current unaffected (1>0, 3>0).
    pl.move_item(1, 3);
    assert_eq!(pl.current_index, 0);

    // current=0, move 0→4: current follows to 4.
    pl.move_item(0, 4);
    assert_eq!(pl.current_index, 4);
}

#[test]
fn move_item_ignores_out_of_range() {
    let mut pl = make_playlist(PlayMode::Sequential, 3);
    pl.current_index = 1;
    pl.move_item(5, 0); // no-op
    assert_eq!(pl.items.len(), 3);
    assert_eq!(pl.current_index, 1);
}

#[test]
fn set_and_get_play_mode() {
    let mut pl = make_playlist(PlayMode::Sequential, 2);
    assert_eq!(pl.play_mode(), PlayMode::Sequential);
    pl.set_play_mode(PlayMode::Random);
    assert_eq!(pl.play_mode(), PlayMode::Random);
}

#[test]
fn prev_and_single_mode() {
    let mut pl = make_playlist(PlayMode::Sequential, 3);
    pl.current_index = 0;
    assert_eq!(pl.prev(), Some("/song_0.mp3")); // stays on the first track
    pl.current_index = 2;
    assert_eq!(pl.prev(), Some("/song_1.mp3"));
    assert_eq!(pl.current_index, 1);
    let mut single = make_playlist(PlayMode::Single, 2);
    assert_eq!(single.next(), Some("/song_1.mp3"));
    assert_eq!(single.next(), None);
}

#[test]
fn remove_keeps_cursor_on_list() {
    let mut pl = make_playlist(PlayMode::Sequential, 3);
    pl.current_index = 2;
    pl.remove(2);
    assert_eq!(pl.len(), 2);
    assert_eq!(pl.current_index, 1);
    pl.remove(7); // out of range: nothing happens
    assert_eq!(pl.len(), 2);
    pl.clear();
    assert!(pl.is_empty());
    assert_eq!(pl.current_index, 0);
}

#[test]
fn add_files_takes_format_from_extension() {
    let mut pl = Playlist::new("x");
    pl.add_files(&["/a.FLAC".to_string(), "/b.txt".to_string(), "/c.ape".to_string()]);
    assert_eq!(pl.len(), 3);
    assert_eq!(pl.items[0].format, AudioFormat::Flac);
    assert_eq!(pl.items[1].format, AudioFormat::Unknown);
    assert!(is_audio_extension("mp3"));
    assert!(!is_audio_extension("txt"));
}

#[test]
fn folder_scan_adds_sorted_paths() {
    let mut pl = Playlist::new("x");
    let n = pl.add_folder_paths(vec!["/m/b.mp3".to_string(), "/m/a.mp3".to_string()]);
    assert_eq!(n, 2);
    assert_eq!(pl.items[0].path, "/m/a.mp3");
    assert_eq!(pl.items[1].path, "/m/b.mp3");
}

#[test]
fn play_index_sets_cursor() {
    let mut pl = make_playlist(PlayMode::Sequential, 3);
    assert_eq!(pl.play_index(1), Some("/song_1.mp3".to_string()));
    assert_eq!(pl.current_index, 1);
    assert_eq!(pl.play_index(9), None);
    assert_eq!(pl.current_index, 9);
    assert_eq!(pl.current_path(), None);
}

#[test]
fn manager_repairs_loaded_state() {
    let m = PlaylistManager::new();
    assert_eq!(m.active().name, "Default");
    let empty = PlaylistManager::from_loaded(Vec::new(), 4);
    assert_eq!(empty.playlists.len(), 1);
    let mut a = make_playlist(PlayMode::Loop, 2);
    a.current_index = 9;
    let mut m = PlaylistManager::from_loaded(vec![a], 3);
    assert_eq!(m.active_index, 0);
    assert_eq!(m.active().current_index, 1);
    m.active_mut().set_play_mode(PlayMode::Random);
    assert_eq!(m.playlists[0].play_mode, PlayMode::Random);
}

#[test]
fn play_mode_names_round_trip() {
    for m in [PlayMode::Single, PlayMode::LoopOne, PlayMode::Sequential, PlayMode::Loop, PlayMode::Random] {
        assert_eq!(parse_play_mode(play_mode_name(m)), Some(m));
    }
    assert_eq!(parse_play_mode("LOOP_ONE"), Some(PlayMode::LoopOne));
    assert_eq!(parse_play_mode("shuffle"), None);
}

#[test]
fn random_pick_takes_first_draw_off_the_current_track() {
    assert_eq!(pick_other_index(5, 2, &[7, 3]), 3);
    assert_eq!(pick_other_index(5, 2, &[9]), 4);
    assert_eq!(pick_other_index(5, 2, &[2; 17]), 3);
    assert_eq!(pick_other_index(5, 4, &[4; 17]), 0);
    // only the first seventeen draws count
    let mut draws = vec![2usize; 17];
    draws.push(1);
    assert_eq!(pick_other_index(5, 2, &draws), 3);
    assert_eq!(pick_other_index(1, 0, &[]), 0);
}
