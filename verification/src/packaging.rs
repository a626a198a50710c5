//! What the bridge tells the photo-stream uploader of a packaged file.

use vstd::prelude::*;
use crate::text::{string_of, to_ascii_upper, upper_seq};
use crate::hex::{new_uuid_text, uuid_v4_text};

verus! {

/// The asset description of a derivative image.
pub struct AssetMetadata {
    pub asset_type: String,
    pub asset_type_flags: u64,
}

/// The description of one uploaded file.
pub struct FileMetadata {
    pub width: usize,
    pub height: usize,
    pub uti_type: String,
    pub video_type: Option<String>,
    pub asset_metadata: Option<AssetMetadata>,
}

/// The description of a packaged file itself: a video is MPEG-4 at 720p,
/// an image is a JPEG derivative.
pub open spec fn main_file_ok(m: FileMetadata, width: usize, height: usize, is_video: bool) -> bool {
    &&& m.width == width
    &&& m.height == height
    &&& if is_video {
        &&& m.uti_type@ == "public.mpeg-4"@
        &&& m.video_type matches Some(t) && t@ == "720p"@
        &&& m.asset_metadata is None
    } else {
        &&& m.uti_type@ == "public.jpeg"@
        &&& m.video_type is None
        &&& m.asset_metadata matches Some(a) && a.asset_type@ == "derivative"@ && a.asset_type_flags
            == 2
    }
}

/// The description of a thumbnail: a JPEG poster frame of the file's size.
pub open spec fn thumbnail_ok(m: FileMetadata, width: usize, height: usize) -> bool {
    &&& m.width == width
    &&& m.height == height
    &&& m.uti_type@ == "public.jpeg"@
    &&& m.video_type matches Some(t) && t@ == "PosterFrame"@
    &&& m.asset_metadata is None
}

/// The descriptions of the files uploaded for a packaged file of the given
/// size (a video where it has a duration): the file, then its thumbnail
/// where it has one.
pub fn packaged_metadata(width: usize, height: usize, is_video: bool, has_thumbnail: bool) -> (r: Vec<
    FileMetadata,
>)
    ensures
        r@.len() == if has_thumbnail {
            2nat
        } else {
            1nat
        },
        main_file_ok(r@[0], width, height, is_video),
        has_thumbnail ==> thumbnail_ok(r@[1], width, height),
{
    let main = if is_video {
        FileMetadata {
            width,
            height,
            uti_type: string_of("public.mpeg-4"),
            video_type: Some(string_of("720p")),
            asset_metadata: None,
        }
    } else {
        FileMetadata {
            width,
            height,
            uti_type: string_of("public.jpeg"),
            video_type: None,
            asset_metadata: Some(
                AssetMetadata { asset_type: string_of("derivative"), asset_type_flags: 2 },
            ),
        }
    };
    let mut r = vec![main];
    if has_thumbnail {
        r.push(
            FileMetadata {
                width,
                height,
                uti_type: string_of("public.jpeg"),
                video_type: Some(string_of("PosterFrame")),
                asset_metadata: None,
            },
        );
    }
    r
}

/// A fresh identifier for an uploaded asset: a random UUID in upper case.
pub fn asset_guid() -> (r: String)
    ensures
        exists|u: Seq<char>| uuid_v4_text(u) && r@ == upper_seq(u),
{
    let u = new_uuid_text();
    to_ascii_upper(u.as_str())
}

} // verus!
