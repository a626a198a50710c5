use bubble_bridge::streams::{
    diff_new_items, SignalEvent, StreamAction, stream_step, RefreshAction, refresh_step, AlbumInfo,
    nameless_albums, pending_albums,
};

fn strs(v: &[&str]) -> Vec<String> {
    v.iter().map(|s| s.to_string()).collect()
}

#[test]
fn diff_reports_each_new_file_once() {
    let mut seen = strs(&["/a/1", "/a/2", "/a/3"]);
    let still = vec![true, false, true];
    let listed = strs(&["/a/1", "/a/4", "/a/2", "/a/4", "/b/5"]);
    let new = diff_new_items(&mut seen, &still, &listed);
    assert_eq!(new, strs(&["/a/4", "/a/2", "/b/5"]));
    assert_eq!(seen, strs(&["/a/1", "/a/3", "/a/4", "/a/2", "/b/5"]));
    let still = vec![true; seen.len()];
    let again = diff_new_items(&mut seen, &still, &listed);
    assert!(again.is_empty());
}

#[test]
fn stream_watcher_steps() {
    assert!(stream_step(SignalEvent::Signal, true) == StreamAction::Diff);
    assert!(stream_step(SignalEvent::Signal, false) == StreamAction::Stop);
    assert!(stream_step(SignalEvent::Lagged, true) == StreamAction::Stop);
    assert!(stream_step(SignalEvent::Closed, true) == StreamAction::Stop);
}

#[test]
fn push_state_saver_steps() {
    assert!(refresh_step(SignalEvent::Signal, true) == RefreshAction::Save);
    assert!(refresh_step(SignalEvent::Signal, false) == RefreshAction::Stop);
    assert!(refresh_step(SignalEvent::Lagged, false) == RefreshAction::Continue);
    assert!(refresh_step(SignalEvent::Closed, true) == RefreshAction::Stop);
}

fn album(g: &str, name: Option<&str>, sharing: &str) -> AlbumInfo {
    AlbumInfo { guid: g.to_string(), name: name.map(|s| s.to_string()), sharing_type: sharing.to_string() }
}

#[test]
fn albums_needing_attention() {
    let albums = vec![album("g1", Some("Trip"), "pending"), album("g2", None, "owned"), album("g3", None, "pending"), album("g1", None, "owned")];
    assert_eq!(nameless_albums(&albums), strs(&["g2", "g3", "g1"]));
    let changes = strs(&["g3", "g2", "g1", "zz", "g3"]);
    assert_eq!(pending_albums(&albums, &changes), vec![2, 0, 2]);
}
