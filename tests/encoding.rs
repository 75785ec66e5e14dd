use documentalist::{EncodingProfileNames, Error};

fn triple(ext: &str) -> (String, String, String) {
    let p = EncodingProfileNames::for_extension(ext).unwrap();
    (p.audio, p.video, p.container)
}

#[test]
fn known_extensions_pick_their_encodings() {
    assert_eq!(
        triple("mkv"),
        ("audio/x-vorbis".to_string(), "video/x-theora".to_string(), "video/x-matroska".to_string())
    );
    assert_eq!(
        triple("mp4"),
        ("audio/mpeg".to_string(), "video/x-h264".to_string(), "video/quicktime".to_string())
    );
    assert_eq!(
        triple("ogg"),
        ("audio/x-vorbis".to_string(), "video/x-theora".to_string(), "application/ogg".to_string())
    );
    assert_eq!(
        triple("webm"),
        ("audio/x-opus".to_string(), "video/x-vp9".to_string(), "video/webm".to_string())
    );
}

#[test]
fn unknown_extension_is_refused() {
    assert_eq!(EncodingProfileNames::for_extension("avi").unwrap_err(), Error::UnsupportedExtension);
    assert_eq!(EncodingProfileNames::for_extension("").unwrap_err(), Error::UnsupportedExtension);
    assert_eq!(EncodingProfileNames::for_extension("MKV").unwrap_err(), Error::UnsupportedExtension);
}
