use bubble_bridge::packaging::{packaged_metadata, asset_guid};

#[test]
fn video_metadata_with_thumbnail() {
    let m = packaged_metadata(1280, 720, true, true);
    assert_eq!(m.len(), 2);
    assert_eq!(m[0].uti_type, "public.mpeg-4");
    assert_eq!(m[0].video_type.as_deref(), Some("720p"));
    assert!(m[0].asset_metadata.is_none());
    assert_eq!((m[1].width, m[1].height), (1280, 720));
    assert_eq!(m[1].uti_type, "public.jpeg");
    assert_eq!(m[1].video_type.as_deref(), Some("PosterFrame"));
}

#[test]
fn image_metadata() {
    let m = packaged_metadata(10, 20, false, false);
    assert_eq!(m.len(), 1);
    assert_eq!(m[0].uti_type, "public.jpeg");
    assert!(m[0].video_type.is_none());
    let a = m[0].asset_metadata.as_ref().expect("asset metadata");
    assert_eq!(a.asset_type, "derivative");
    assert_eq!(a.asset_type_flags, 2);
}

#[test]
fn asset_guid_is_upper_uuid() {
    let g = asset_guid();
    assert_eq!(g.len(), 36);
    assert_eq!(g, g.to_uppercase());
    assert_eq!(g.as_bytes()[8], b'-');
    assert_eq!(g.as_bytes()[14], b'4');
    assert_ne!(g, asset_guid());
}
