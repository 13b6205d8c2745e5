//! Stream records and the codec policy.

use crate::utils::text::same_text;
use vstd::prelude::*;

verus! {

/// The kind of an elementary stream.
#[derive(Debug, Clone, Copy, PartialEq, Eq, Structural)]
pub enum Codec {
    Video,
    Audio,
    Subtitle,
}

/// The codec that a `codec_type` value names, if it names one. The match is
/// exact: case counts.
pub open spec fn codec_of(codec_type: Seq<char>) -> Option<Codec> {
    if codec_type == "video"@ {
        Some(Codec::Video)
    } else if codec_type == "audio"@ {
        Some(Codec::Audio)
    } else if codec_type == "subtitle"@ {
        Some(Codec::Subtitle)
    } else {
        None
    }
}

/// The codec named by `codec_type`, which must be one of `video`, `audio`
/// and `subtitle`.
pub fn from(codec_type: &str) -> (codec: Codec)
    requires
        codec_of(codec_type@) is Some,
    ensures
        codec_of(codec_type@) == Some(codec),
{
    if same_text(codec_type, "video") {
        Codec::Video
    } else if same_text(codec_type, "audio") {
        Codec::Audio
    } else {
        Codec::Subtitle
    }
}

/// What a stream record holds, as plain values.
pub struct StreamView {
    pub codec: Option<Codec>,
    pub name: Option<Seq<char>>,
    pub language: Option<Seq<char>>,
}

impl StreamView {
    /// The record in which nothing is set.
    pub open spec fn empty() -> StreamView {
        StreamView { codec: None, name: None, language: None }
    }

    /// A record is filled once its codec and codec name are set and, unless
    /// it is a video stream, its language too.
    pub open spec fn is_filled(self) -> bool {
        &&& self.codec is Some
        &&& self.name is Some
        &&& (self.codec == Some(Codec::Video) || self.language is Some)
    }

    /// A video stream encoded as h264.
    pub open spec fn is_valid_video(self) -> bool {
        self.codec == Some(Codec::Video) && self.name == Some("h264"@)
    }

    /// An audio stream encoded as aac.
    pub open spec fn is_valid_audio(self) -> bool {
        self.codec == Some(Codec::Audio) && self.name == Some("aac"@)
    }

    /// A subtitle stream in French, in English or of undetermined language.
    pub open spec fn is_valid_subtitle(self) -> bool {
        &&& self.codec == Some(Codec::Subtitle)
        &&& self.language matches Some(language)
        &&& (language == "fra"@ || language == "fre"@ || language == "eng"@ || language == "und"@)
    }

    /// The codec policy: what a stream must be for its file to stay as it
    /// is. A record without a codec satisfies no policy.
    pub open spec fn is_acceptable(self) -> bool {
        match self.codec {
            Some(Codec::Video) => self.is_valid_video(),
            Some(Codec::Audio) => self.is_valid_audio(),
            Some(Codec::Subtitle) => self.is_valid_subtitle(),
            None => false,
        }
    }
}

/// One elementary stream (track) as the probe reports it.
pub struct Stream {
    codec: Option<Codec>,
    name: Option<String>,
    language: Option<String>,
}

impl View for Stream {
    type V = StreamView;

    closed spec fn view(&self) -> StreamView {
        StreamView {
            codec: self.codec,
            name: match self.name {
                Some(name) => Some(name@),
                None => None,
            },
            language: match self.language {
                Some(language) => Some(language@),
                None => None,
            },
        }
    }
}

impl Stream {
    /// A record in which nothing is set.
    pub fn new() -> (stream: Stream)
        ensures
            stream@ == StreamView::empty(),
    {
        Stream { codec: None, name: None, language: None }
    }

    /// The kind of the stream, once it is set.
    pub fn get_codec(&self) -> (codec: Option<&Codec>)
        ensures
            match codec {
                Some(codec) => self@.codec == Some(*codec),
                None => self@.codec is None,
            },
    {
        self.codec.as_ref()
    }

    /// Sets the kind of the stream and leaves the rest as it is.
    pub fn set_codec(&mut self, codec: Codec)
        ensures
            final(self)@ == (StreamView { codec: Some(codec), ..old(self)@ }),
    {
        self.codec = Some(codec);
    }

    /// The name of the stream's codec, once it is set.
    pub fn get_name(&self) -> (name: Option<&String>)
        ensures
            match name {
                Some(name) => self@.name == Some(name@),
                None => self@.name is None,
            },
    {
        self.name.as_ref()
    }

    /// Sets the name of the stream's codec and leaves the rest as it is.
    pub fn set_name(&mut self, name: &str)
        ensures
            final(self)@ == (StreamView { name: Some(name@), ..old(self)@ }),
    {
        self.name = Some(name.to_owned());
    }

    /// The language of the stream, once it is set.
    pub fn get_language(&self) -> (language: Option<&String>)
        ensures
            match language {
                Some(language) => self@.language == Some(language@),
                None => self@.language is None,
            },
    {
        self.language.as_ref()
    }

    /// Sets the language of the stream and leaves the rest as it is.
    pub fn set_language(&mut self, language: &str)
        ensures
            final(self)@ == (StreamView { language: Some(language@), ..old(self)@ }),
    {
        self.language = Some(language.to_owned());
    }

    /// Whether the stream is known to be a video stream.
    pub fn is_video(&self) -> (video: bool)
        ensures
            video == (self@.codec == Some(Codec::Video)),
    {
        match self.get_codec() {
            Some(codec) => Codec::Video == *codec,
            None => false,
        }
    }

    /// Whether the stream is known to be an audio stream.
    pub fn is_audio(&self) -> (audio: bool)
        ensures
            audio == (self@.codec == Some(Codec::Audio)),
    {
        match self.get_codec() {
            Some(codec) => Codec::Audio == *codec,
            None => false,
        }
    }

    /// Whether the stream is known to be a subtitle stream.
    pub fn is_subtitle(&self) -> (subtitle: bool)
        ensures
            subtitle == (self@.codec == Some(Codec::Subtitle)),
    {
        match self.get_codec() {
            Some(codec) => Codec::Subtitle == *codec,
            None => false,
        }
    }

    /// Whether the record holds all that its kind of stream is judged by.
    pub fn is_filled(&self) -> (filled: bool)
        ensures
            filled == self@.is_filled(),
    {
        self.codec.is_some() && self.name.is_some() && (self.is_video()
            || self.language.is_some())
    }

    /// Whether this is a video stream that satisfies the codec policy.
    pub fn is_valid_video_stream(&self) -> (valid: bool)
        ensures
            valid == self@.is_valid_video(),
    {
        self.is_video() && match self.get_name() {
            Some(name) => same_text("h264", name.as_str()),
            None => false,
        }
    }

    /// Whether this is an audio stream that satisfies the codec policy.
    pub fn is_valid_audio_stream(&self) -> (valid: bool)
        ensures
            valid == self@.is_valid_audio(),
    {
        self.is_audio() && match self.get_name() {
            Some(name) => same_text("aac", name.as_str()),
            None => false,
        }
    }

    /// Whether this is a subtitle stream that satisfies the codec policy.
    pub fn is_valid_subtitle_stream(&self) -> (valid: bool)
        ensures
            valid == self@.is_valid_subtitle(),
    {
        self.is_subtitle() && match self.get_language() {
            Some(language) => {
                let language = language.as_str();
                same_text(language, "fra") || same_text(language, "fre") || same_text(
                    language,
                    "eng",
                ) || same_text(language, "und")
            },
            None => false,
        }
    }
}

} // verus!
