//! Which encoding an output file gets, chosen by its extension.
use vstd::prelude::*;

use crate::doc::text_eq;
use crate::error::Error;

verus! {

/// Media types of the audio stream, the video stream and the container of an output.
#[derive(Debug)]
pub struct EncodingProfileNames {
    pub audio: String,
    pub video: String,
    pub container: String,
}

/// The media types for an output extension: audio, video, container.
pub open spec fn profile_for(ext: Seq<char>) -> Option<(Seq<char>, Seq<char>, Seq<char>)> {
    if ext == "mp4"@ {
        Some(("audio/mpeg"@, "video/x-h264"@, "video/quicktime"@))
    } else if ext == "mkv"@ {
        Some(("audio/x-vorbis"@, "video/x-theora"@, "video/x-matroska"@))
    } else if ext == "ogg"@ {
        Some(("audio/x-vorbis"@, "video/x-theora"@, "application/ogg"@))
    } else if ext == "webm"@ {
        Some(("audio/x-opus"@, "video/x-vp9"@, "video/webm"@))
    } else {
        None
    }
}

fn names(audio: &str, video: &str, container: &str) -> (r: EncodingProfileNames)
    ensures
        r.audio@ == audio@,
        r.video@ == video@,
        r.container@ == container@,
{
    EncodingProfileNames {
        audio: String::from_str(audio),
        video: String::from_str(video),
        container: String::from_str(container),
    }
}

impl EncodingProfileNames {
    /// The encoding for an output file with extension `ext` (without the dot):
    /// mp4, mkv, ogg or webm.
    pub fn for_extension(ext: &str) -> (r: Result<EncodingProfileNames, Error>)
        ensures
            match profile_for(ext@) {
                Some(p) => r matches Ok(n) && n.audio@ == p.0 && n.video@ == p.1 && n.container@
                    == p.2,
                None => r == Err::<EncodingProfileNames, Error>(Error::UnsupportedExtension),
            },
    {
        if text_eq(ext, "mp4") {
            Ok(names("audio/mpeg", "video/x-h264", "video/quicktime"))
        } else if text_eq(ext, "mkv") {
            Ok(names("audio/x-vorbis", "video/x-theora", "video/x-matroska"))
        } else if text_eq(ext, "ogg") {
            Ok(names("audio/x-vorbis", "video/x-theora", "application/ogg"))
        } else if text_eq(ext, "webm") {
            Ok(names("audio/x-opus", "video/x-vp9", "video/webm"))
        } else {
            Err(Error::UnsupportedExtension)
        }
    }
}

} // verus!
