//! The sounds that callers hear.
//!
//! A sound is held in memory, streamed from a file, or generated.

use crate::config::{path_below, SoundEntry};
use crate::config::join_path;
use crate::routing::static_router::names;
use crate::text::{parse_decimal, parse_u32, same_text};
use std::collections::HashMap;
use vstd::prelude::*;
use vstd::string::*;

pub mod streaming;

verus! {

broadcast use vstd::std_specs::hash::group_hash_axioms;

/// Why a sound cannot be used.
#[derive(Debug)]
pub enum SoundError {
    /// The file cannot be read.
    Read { path: String, detail: String },
    /// The file cannot be decoded.
    Parse { name: String, detail: String },
    /// The sound is not at the rate of the conference bridge.
    WrongSampleRate { name: String, got: u32, expected: u32 },
    /// The file is neither FLAC nor WAV; its first bytes are kept.
    UnknownFormat { name: String, header: Vec<u8> },
}

/// The format of a sound file.
#[derive(Debug, Clone, Copy, PartialEq, Eq, Structural)]
pub enum AudioFormat {
    Flac,
    Wav,
    Unknown,
}

/// The format that the first four bytes of a file announce: `fLaC` or `RIFF`.
pub open spec fn format_of(data: Seq<u8>) -> AudioFormat {
    if data.len() < 4 {
        AudioFormat::Unknown
    } else if data[0] == 0x66 && data[1] == 0x4C && data[2] == 0x61 && data[3] == 0x43 {
        AudioFormat::Flac
    } else if data[0] == 0x52 && data[1] == 0x49 && data[2] == 0x46 && data[3] == 0x46 {
        AudioFormat::Wav
    } else {
        AudioFormat::Unknown
    }
}

/// The format that the first bytes of a file announce.
pub fn detect_format(data: &[u8]) -> (r: AudioFormat)
    ensures
        r == format_of(data@),
{
    if data.len() < 4 {
        return AudioFormat::Unknown;
    }
    if data[0] == 0x66 && data[1] == 0x4C && data[2] == 0x61 && data[3] == 0x43 {
        AudioFormat::Flac
    } else if data[0] == 0x52 && data[1] == 0x49 && data[2] == 0x46 && data[3] == 0x46 {
        AudioFormat::Wav
    } else {
        AudioFormat::Unknown
    }
}

/// The first bytes of a file, up to four.
fn header_bytes(data: &[u8]) -> (r: Vec<u8>)
    ensures
        r@ == data@.take(if data@.len() < 4 {
            data@.len() as int
        } else {
            4
        }),
{
    let mut r: Vec<u8> = Vec::new();
    let mut i: usize = 0;
    while i < data.len() && i < 4
        invariant
            i <= data@.len(),
            i <= 4,
            r@ =~= data@.take(i as int),
        decreases data@.len() - i,
    {
        r.push(data[i]);
        i = i + 1;
    }
    r
}

/// The samples of a sound file, given what the decoder of its format made of it: samples and
/// their rate, or what went wrong. A file of no known format is not decoded.
pub fn parse_audio(data: &[u8], name: &str, decoded: Result<(Vec<i16>, u32), String>) -> (r: Result<
    Vec<i16>,
    SoundError,
>)
    ensures
        parsed_as(r, data@, name@, decoded),
{
    match detect_format(data) {
        AudioFormat::Unknown => Err(
            SoundError::UnknownFormat { name: String::from_str(name), header: header_bytes(data) },
        ),
        _ => match decoded {
            Err(detail) => Err(SoundError::Parse { name: String::from_str(name), detail }),
            Ok((samples, rate)) => {
                if rate != crate::sip::types::CONF_SAMPLE_RATE {
                    return Err(
                        SoundError::WrongSampleRate {
                            name: String::from_str(name),
                            got: rate,
                            expected: crate::sip::types::CONF_SAMPLE_RATE,
                        },
                    );
                }
                Ok(samples)
            },
        },
    }
}

/// The result is that of the file and of its decoder.
pub open spec fn parsed_as(
    r: Result<Vec<i16>, SoundError>,
    data: Seq<u8>,
    name: Seq<char>,
    decoded: Result<(Vec<i16>, u32), String>,
) -> bool {
    if format_of(data) == AudioFormat::Unknown {
        r matches Err(SoundError::UnknownFormat { name: n, header }) && n@ == name && header@
            == data.take(
            if data.len() < 4 {
                data.len() as int
            } else {
                4
            },
        )
    } else {
        match decoded {
            Err(detail) => r matches Err(SoundError::Parse { name: n, detail: d }) && n@ == name && d
                == detail,
            Ok((samples, rate)) => if rate != 16000 {
                r matches Err(SoundError::WrongSampleRate { name: n, got, expected }) && n@ == name
                    && got == rate && expected == 16000
            } else {
                r == Ok::<Vec<i16>, SoundError>(samples)
            },
        }
    }
}

/// A sound in memory, at the rate of the conference bridge.
#[derive(Debug)]
pub struct PreloadedSound {
    pub samples: Vec<i16>,
    /// How long the sound is, in milliseconds.
    pub duration_ms: u64,
}

/// The milliseconds that samples last.
pub open spec fn duration_of(samples: nat) -> nat {
    samples * 1000 / 16000
}

impl PreloadedSound {
    /// The duration is that of the samples.
    pub open spec fn wf(&self) -> bool {
        self.duration_ms == duration_of(self.samples@.len())
    }

    /// A sound of samples.
    pub fn new(samples: Vec<i16>) -> (r: Self)
        requires
            samples@.len() * 1000 <= u64::MAX,
        ensures
            r.samples == samples,
            r.wf(),
    {
        let duration_ms: u64 = (samples.len() as u64 * 1000)
            / crate::sip::types::CONF_SAMPLE_RATE as u64;
        PreloadedSound { samples, duration_ms }
    }
}

/// A sound that is streamed from a file.
#[derive(Debug)]
pub struct StreamingConfig {
    pub path: String,
}

/// The path of a sound file: below the directory of sounds, unless it is absolute.
pub open spec fn sound_path(dir: Seq<char>, src: Seq<char>) -> Seq<char> {
    if src.len() > 0 && src[0] == '/' {
        src
    } else {
        path_below(dir, src)
    }
}

/// The path of a sound file.
pub fn build_sound_path(dir: &str, src: &str) -> (r: String)
    ensures
        r@ == sound_path(dir@, src@),
{
    if src.unicode_len() > 0 && src.get_char(0) == '/' {
        String::from_str(src)
    } else {
        join_path(dir, src)
    }
}

/// What the file of a sound was found to be.
#[derive(Debug)]
pub enum SoundFile {
    /// It was read and decoded.
    Samples(Vec<i16>),
    /// It was not read, but it exists.
    Present,
    /// It could not be read, or does not exist.
    Missing,
}

/// The sounds, by their names, and the extensions that play them.
pub struct SoundManager {
    preloaded: Vec<(String, PreloadedSound)>,
    streaming: Vec<(String, StreamingConfig)>,
    extension_map: HashMap<u32, String>,
    sounds_dir: String,
}

/// The value under a name, if there is one: the last that was put there.
pub open spec fn value_named<T>(s: Seq<(String, T)>, name: Seq<char>) -> Option<T>
    decreases s.len(),
{
    if s.len() == 0 {
        None
    } else if s.last().0@ == name {
        Some(s.last().1)
    } else {
        value_named(s.drop_last(), name)
    }
}

/// Where the value under a name stands.
fn index_named<T>(v: &Vec<(String, T)>, name: &str) -> (r: Option<usize>)
    ensures
        match r {
            Some(i) => i < v@.len() && value_named(v@, name@) == Some(v@[i as int].1),
            None => value_named(v@, name@) is None,
        },
{
    let mut i: usize = v.len();
    proof {
        assert(v@.take(v@.len() as int) =~= v@);
    }
    while i > 0
        invariant
            i <= v@.len(),
            value_named(v@, name@) == value_named(v@.take(i as int), name@),
        decreases i,
    {
        proof {
            assert(v@.take(i as int).drop_last() =~= v@.take(i - 1));
        }
        i = i - 1;
        if same_text(v[i].0.as_str(), name) {
            return Some(i);
        }
    }
    None
}

/// What a sound manager knows, once it has taken in the first entries.
pub struct SoundTables {
    pub preloaded: Seq<(Seq<char>, Seq<i16>)>,
    pub streaming: Seq<(Seq<char>, Seq<char>)>,
    pub extensions: Map<u32, Seq<char>>,
}

/// What a sound manager knows, with one more entry taken in.
pub open spec fn with_sound(
    t: SoundTables,
    dir: Seq<char>,
    name: Seq<char>,
    entry: SoundEntry,
    file: SoundFile,
) -> SoundTables {
    SoundTables {
        extensions: match entry.extension {
            Some(e) => t.extensions.insert(e, name),
            None => t.extensions,
        },
        preloaded: match (entry.src, file) {
            (Some(_), SoundFile::Samples(s)) => if entry.preload {
                t.preloaded.push((name, s@))
            } else {
                t.preloaded
            },
            _ => t.preloaded,
        },
        streaming: match (entry.src, file) {
            (Some(src), SoundFile::Present) => if !entry.preload {
                t.streaming.push((name, sound_path(dir, src@)))
            } else {
                t.streaming
            },
            _ => t.streaming,
        },
    }
}

/// What a sound manager knows of a list of entries, given their files.
pub open spec fn tables_of(
    dir: Seq<char>,
    entries: Seq<(String, SoundEntry)>,
    files: Seq<SoundFile>,
) -> SoundTables
    decreases entries.len(),
{
    if entries.len() == 0 || files.len() != entries.len() {
        SoundTables { preloaded: Seq::empty(), streaming: Seq::empty(), extensions: Map::empty() }
    } else {
        with_sound(
            tables_of(dir, entries.drop_last(), files.drop_last()),
            dir,
            entries.last().0@,
            entries.last().1,
            files.last(),
        )
    }
}

/// What becomes of an extension sound.
#[derive(Debug, PartialEq, Eq)]
pub enum ExtensionPlay {
    /// A tone is played until the caller hangs up.
    TestTone,
    /// A file is streamed, and the call hung up behind it.
    Stream { path: String },
    /// Samples are played; the call is hung up after the time.
    Play { wait_ms: u64 },
    /// There is no such sound: the call is hung up.
    NotFound,
}

impl SoundManager {
    /// The names and samples of the sounds in memory.
    pub closed spec fn preloaded_table(&self) -> Seq<(Seq<char>, Seq<i16>)> {
        self.preloaded@.map_values(|e: (String, PreloadedSound)| (e.0@, e.1.samples@))
    }

    /// The names and paths of the sounds that are streamed.
    pub closed spec fn streaming_table(&self) -> Seq<(Seq<char>, Seq<char>)> {
        self.streaming@.map_values(|e: (String, StreamingConfig)| (e.0@, e.1.path@))
    }

    /// The sounds of extensions.
    pub closed spec fn extension_table(&self) -> Map<u32, Seq<char>> {
        Map::new(|e: u32| self.extension_map@.contains_key(e), |e: u32| self.extension_map@[e]@)
    }

    /// The directory of sounds.
    pub closed spec fn dir(&self) -> Seq<char> {
        self.sounds_dir@
    }

    /// What the manager knows.
    pub open spec fn tables(&self) -> SoundTables {
        SoundTables {
            preloaded: self.preloaded_table(),
            streaming: self.streaming_table(),
            extensions: self.extension_table(),
        }
    }

    /// The durations are those of the samples.
    pub closed spec fn wf(&self) -> bool {
        forall|i: int| 0 <= i < self.preloaded@.len() ==> (#[trigger] self.preloaded@[i]).1.wf()
    }

    /// The sounds of a configuration, given their files in the order of the entries. No name
    /// occurs twice.
    pub fn new(
        sounds_dir: &str,
        entries: &Vec<(String, SoundEntry)>,
        files: Vec<SoundFile>,
    ) -> (r: Self)
        requires
            names(entries@).no_duplicates(),
            files@.len() == entries@.len(),
            forall|i: int|
                0 <= i < files@.len() ==> match #[trigger] files@[i] {
                    SoundFile::Samples(s) => s@.len() * 1000 <= u64::MAX,
                    _ => true,
                },
        ensures
            r.wf(),
            r.dir() == sounds_dir@,
            r.tables() == tables_of(sounds_dir@, entries@, files@),
    {
        let mut m = SoundManager {
            preloaded: Vec::new(),
            streaming: Vec::new(),
            extension_map: HashMap::new(),
            sounds_dir: String::from_str(sounds_dir),
        };
        m.load_sounds(entries, files);
        m
    }

    /// Takes the entries of a configuration in.
    fn load_sounds(&mut self, entries: &Vec<(String, SoundEntry)>, files: Vec<SoundFile>)
        requires
            files@.len() == entries@.len(),
            old(self).preloaded@.len() == 0,
            old(self).streaming@.len() == 0,
            old(self).extension_map@ == Map::<u32, String>::empty(),
            forall|i: int|
                0 <= i < files@.len() ==> match #[trigger] files@[i] {
                    SoundFile::Samples(s) => s@.len() * 1000 <= u64::MAX,
                    _ => true,
                },
        ensures
            final(self).wf(),
            final(self).dir() == old(self).dir(),
            final(self).tables() == tables_of(old(self).dir(), entries@, files@),
    {
        let ghost all = files@;
        let mut rest: Vec<SoundFile> = files;
        let mut i: usize = 0;
        proof {
            assert(rest@ =~= all.subrange(0, all.len() as int));
            assert(self.preloaded_table() =~= Seq::empty());
            assert(self.streaming_table() =~= Seq::empty());
            assert(self.extension_table() =~= Map::empty());
        }
        while i < entries.len()
            invariant
                i <= entries@.len(),
                entries@.len() == all.len(),
                rest@ == all.subrange(i as int, all.len() as int),
                forall|k: int|
                    0 <= k < all.len() ==> match #[trigger] all[k] {
                        SoundFile::Samples(s) => s@.len() * 1000 <= u64::MAX,
                        _ => true,
                    },
                self.wf(),
                self.dir() == old(self).dir(),
                self.tables() == tables_of(
                    old(self).dir(),
                    entries@.take(i as int),
                    all.take(i as int),
                ),
            decreases entries@.len() - i,
        {
            let file: SoundFile = rest.remove(0);
            proof {
                assert(file == all[i as int]);
                assert(rest@ =~= all.subrange(i + 1, all.len() as int));
                assert(entries@.take(i + 1).drop_last() =~= entries@.take(i as int));
                assert(all.take(i + 1).drop_last() =~= all.take(i as int));
            }
            self.take_sound(entries[i].0.as_str(), &entries[i].1, file);
            i = i + 1;
        }
        proof {
            assert(entries@.take(entries@.len() as int) =~= entries@);
            assert(all.take(all.len() as int) =~= all);
        }
    }

    /// Takes one entry in.
    fn take_sound(&mut self, name: &str, entry: &SoundEntry, file: SoundFile)
        requires
            old(self).wf(),
            match file {
                SoundFile::Samples(s) => s@.len() * 1000 <= u64::MAX,
                _ => true,
            },
        ensures
            final(self).wf(),
            final(self).dir() == old(self).dir(),
            final(self).tables() == with_sound(
                old(self).tables(),
                old(self).dir(),
                name@,
                *entry,
                file,
            ),
    {
        let ghost before = *self;
        if let Some(ext) = entry.extension {
            self.extension_map.insert(ext, String::from_str(name));
            proof {
                assert(self.extension_table() =~= before.extension_table().insert(ext, name@));
            }
        } else {
            proof {
                assert(self.extension_table() =~= before.extension_table());
            }
        }
        let ghost middle = *self;
        if let Some(src) = &entry.src {
            match file {
                SoundFile::Samples(samples) => {
                    if entry.preload {
                        self.preloaded.push((String::from_str(name), PreloadedSound::new(samples)));
                        proof {
                            assert(self.preloaded_table() =~= before.preloaded_table().push(
                                (name@, samples@),
                            ));
                        }
                    }
                },
                SoundFile::Present => {
                    if !entry.preload {
                        let path: String = build_sound_path(
                            self.sounds_dir.as_str(),
                            src.as_str(),
                        );
                        self.streaming.push((String::from_str(name), StreamingConfig { path }));
                        proof {
                            assert(self.streaming_table() =~= before.streaming_table().push(
                                (name@, sound_path(before.dir(), src@)),
                            ));
                        }
                    }
                },
                SoundFile::Missing => {},
            }
        }
        proof {
            assert(self.extension_table() =~= middle.extension_table());
        }
    }

    /// The sound in memory under a name.
    pub fn get_preloaded(&self, name: &str) -> (r: Option<&PreloadedSound>)
        requires
            self.wf(),
        ensures
            r is Some <==> sound_named(self.preloaded_table(), name@) is Some,
            r is Some ==> (r->0).wf() && Some((r->0).samples@) == sound_named(
                self.preloaded_table(),
                name@,
            ),
    {
        proof {
            lemma_named(self.preloaded@, self.preloaded_table(), name@);
        }
        match index_named(&self.preloaded, name) {
            Some(i) => Some(&self.preloaded[i].1),
            None => None,
        }
    }

    /// The streamed sound under a name.
    pub fn get_streaming(&self, name: &str) -> (r: Option<&StreamingConfig>)
        ensures
            r is Some <==> sound_named(self.streaming_table(), name@) is Some,
            r is Some ==> Some((r->0).path@) == sound_named(self.streaming_table(), name@),
    {
        proof {
            lemma_named_path(self.streaming@, self.streaming_table(), name@);
        }
        match index_named(&self.streaming, name) {
            Some(i) => Some(&self.streaming[i].1),
            None => None,
        }
    }

    /// Whether a sound is streamed.
    pub fn is_streaming(&self, name: &str) -> (r: bool)
        ensures
            r == sound_named(self.streaming_table(), name@) is Some,
    {
        self.get_streaming(name).is_some()
    }

    /// Whether a sound is the generated tone.
    pub fn is_test_tone(&self, name: &str) -> (r: bool)
        ensures
            r == (name@ == "test_tone"@),
    {
        same_text(name, "test_tone")
    }

    /// The sound of an extension.
    pub fn get_extension_sound(&self, extension: u32) -> (r: Option<&str>)
        ensures
            r is Some <==> self.extension_table().contains_key(extension),
            r is Some ==> (r->0)@ == self.extension_table()[extension],
    {
        match self.extension_map.get(&extension) {
            Some(s) => Some(s.as_str()),
            None => None,
        }
    }

    /// The sound of an extension as it was dialled: the extension must be a number.
    pub fn dialled_sound(&self, extension: &str) -> (r: Option<&str>)
        ensures
            r is Some <==> parse_decimal(extension@, u32::MAX as nat) is Some
                && self.extension_table().contains_key(
                parse_decimal(extension@, u32::MAX as nat)->0 as u32,
            ),
            r is Some ==> (r->0)@ == self.extension_table()[parse_decimal(
                extension@,
                u32::MAX as nat,
            )->0 as u32],
    {
        match parse_u32(extension) {
            Some(n) => self.get_extension_sound(n),
            None => None,
        }
    }

    /// The samples of the connecting sound.
    pub fn get_connecting_samples(&self) -> (r: Option<&Vec<i16>>)
        requires
            self.wf(),
        ensures
            r is Some <==> sound_named(self.preloaded_table(), "connecting"@) is Some,
            r is Some ==> Some((r->0)@) == sound_named(self.preloaded_table(), "connecting"@),
    {
        match self.get_preloaded("connecting") {
            Some(s) => Some(&s.samples),
            None => None,
        }
    }

    /// The samples of the sound that a caller hears on joining.
    pub fn get_discord_join_samples(&self) -> (r: Option<&Vec<i16>>)
        requires
            self.wf(),
        ensures
            r is Some <==> sound_named(self.preloaded_table(), "discord_join"@) is Some,
            r is Some ==> Some((r->0)@) == sound_named(self.preloaded_table(), "discord_join"@),
    {
        match self.get_preloaded("discord_join") {
            Some(s) => Some(&s.samples),
            None => None,
        }
    }

    /// The samples of the sound of an error.
    pub fn get_error_samples(&self, error_type: &str) -> (r: Option<&Vec<i16>>)
        requires
            self.wf(),
        ensures
            r is Some <==> sound_named(self.preloaded_table(), error_type@) is Some,
            r is Some ==> Some((r->0)@) == sound_named(self.preloaded_table(), error_type@),
    {
        match self.get_preloaded(error_type) {
            Some(s) => Some(&s.samples),
            None => None,
        }
    }

    /// What becomes of an extension sound: a tone, then a streamed sound, then one in memory.
    pub fn extension_play(&self, name: &str) -> (r: ExtensionPlay)
        requires
            self.wf(),
        ensures
            plays(r, *self, name@),
    {
        if self.is_test_tone(name) {
            return ExtensionPlay::TestTone;
        }
        if let Some(config) = self.get_streaming(name) {
            return ExtensionPlay::Stream { path: config.path.clone() };
        }
        match self.get_preloaded(name) {
            Some(sound) => {
                assert(sound.samples.len() * 1000 / 16000 <= sound.samples.len());
                assert(sound.duration_ms <= usize::MAX / 16);
                ExtensionPlay::Play { wait_ms: sound.duration_ms + 200 }
            },
            None => ExtensionPlay::NotFound,
        }
    }
}

/// The value of a table under a name: the last that was put there.
pub open spec fn sound_named<T>(t: Seq<(Seq<char>, T)>, name: Seq<char>) -> Option<T>
    decreases t.len(),
{
    if t.len() == 0 {
        None
    } else if t.last().0 == name {
        Some(t.last().1)
    } else {
        sound_named(t.drop_last(), name)
    }
}

proof fn lemma_named(
    s: Seq<(String, PreloadedSound)>,
    t: Seq<(Seq<char>, Seq<i16>)>,
    name: Seq<char>,
)
    requires
        t == s.map_values(|e: (String, PreloadedSound)| (e.0@, e.1.samples@)),
    ensures
        sound_named(t, name) == (match value_named(s, name) {
            Some(v) => Some(v.samples@),
            None => None,
        }),
    decreases s.len(),
{
    if s.len() > 0 {
        assert(t.drop_last() =~= s.drop_last().map_values(
            |e: (String, PreloadedSound)| (e.0@, e.1.samples@),
        ));
        lemma_named(s.drop_last(), t.drop_last(), name);
    }
}

proof fn lemma_named_path(
    s: Seq<(String, StreamingConfig)>,
    t: Seq<(Seq<char>, Seq<char>)>,
    name: Seq<char>,
)
    requires
        t == s.map_values(|e: (String, StreamingConfig)| (e.0@, e.1.path@)),
    ensures
        sound_named(t, name) == (match value_named(s, name) {
            Some(v) => Some(v.path@),
            None => None,
        }),
    decreases s.len(),
{
    if s.len() > 0 {
        assert(t.drop_last() =~= s.drop_last().map_values(
            |e: (String, StreamingConfig)| (e.0@, e.1.path@),
        ));
        lemma_named_path(s.drop_last(), t.drop_last(), name);
    }
}

/// The play is that of the sound.
pub open spec fn plays(r: ExtensionPlay, m: SoundManager, name: Seq<char>) -> bool {
    if name == "test_tone"@ {
        r is TestTone
    } else {
        match (
            sound_named(m.streaming_table(), name),
            sound_named(m.preloaded_table(), name),
        ) {
            (Some(path), _) => r is Stream && r->path@ == path,
            (None, Some(samples)) => r == (ExtensionPlay::Play {
                wait_ms: (duration_of(samples.len()) + 200) as u64,
            }),
            (None, None) => r is NotFound,
        }
    }
}

/// The sounds of a configuration.
pub fn create_sound_manager(
    sounds_dir: &str,
    entries: &Vec<(String, SoundEntry)>,
    files: Vec<SoundFile>,
) -> (r: SoundManager)
    requires
        names(entries@).no_duplicates(),
        files@.len() == entries@.len(),
        forall|i: int|
            0 <= i < files@.len() ==> match #[trigger] files@[i] {
                SoundFile::Samples(s) => s@.len() * 1000 <= u64::MAX,
                _ => true,
            },
    ensures
        r.wf(),
        r.dir() == sounds_dir@,
        r.tables() == tables_of(sounds_dir@, entries@, files@),
{
    SoundManager::new(sounds_dir, entries, files)
}

/// The entry at an index is that of a sound that is streamed: it is not to be kept in memory, and
/// has a source whose file exists.
pub open spec fn is_streamed_entry(
    entries: Seq<(String, SoundEntry)>,
    files: Seq<SoundFile>,
    name: Seq<char>,
    i: int,
) -> bool {
    &&& 0 <= i < entries.len()
    &&& entries[i].0@ == name
    &&& !entries[i].1.preload
    &&& entries[i].1.src is Some
    &&& files[i] is Present
}

/// A streamed sound is that of an entry.
proof fn lemma_streamed_entry(
    dir: Seq<char>,
    entries: Seq<(String, SoundEntry)>,
    files: Seq<SoundFile>,
    name: Seq<char>,
) -> (i: int)
    requires
        files.len() == entries.len(),
        sound_named(tables_of(dir, entries, files).streaming, name) is Some,
    ensures
        is_streamed_entry(entries, files, name, i),
        sound_named(tables_of(dir, entries, files).streaming, name) == Some(
            sound_path(dir, (entries[i].1.src->0)@),
        ),
    decreases entries.len(),
{
    let t = tables_of(dir, entries, files).streaming;
    let before = tables_of(dir, entries.drop_last(), files.drop_last()).streaming;
    let last = entries.len() - 1;
    if t.len() == before.len() {
        lemma_streamed_entry(dir, entries.drop_last(), files.drop_last(), name)
    } else {
        assert(t.drop_last() =~= before);
        if entries.last().0@ == name {
            last
        } else {
            lemma_streamed_entry(dir, entries.drop_last(), files.drop_last(), name)
        }
    }
}

/// A sound in memory is that of an entry that is to be kept there.
proof fn lemma_preloaded_entry(
    dir: Seq<char>,
    entries: Seq<(String, SoundEntry)>,
    files: Seq<SoundFile>,
    name: Seq<char>,
) -> (i: int)
    requires
        files.len() == entries.len(),
        sound_named(tables_of(dir, entries, files).preloaded, name) is Some,
    ensures
        0 <= i < entries.len(),
        entries[i].0@ == name,
        entries[i].1.preload,
    decreases entries.len(),
{
    let t = tables_of(dir, entries, files).preloaded;
    let before = tables_of(dir, entries.drop_last(), files.drop_last()).preloaded;
    let last = entries.len() - 1;
    if t.len() == before.len() {
        lemma_preloaded_entry(dir, entries.drop_last(), files.drop_last(), name)
    } else {
        assert(t.drop_last() =~= before);
        if entries.last().0@ == name {
            last
        } else {
            lemma_preloaded_entry(dir, entries.drop_last(), files.drop_last(), name)
        }
    }
}

/// A sound that is streamed is not in memory: its entry says so, and has a source whose file
/// exists, at the path that is streamed.
pub proof fn law_a_streamed_sound_is_not_in_memory(
    dir: Seq<char>,
    entries: Seq<(String, SoundEntry)>,
    files: Seq<SoundFile>,
    name: Seq<char>,
)
    requires
        files.len() == entries.len(),
        names(entries).no_duplicates(),
        sound_named(tables_of(dir, entries, files).streaming, name) is Some,
    ensures
        sound_named(tables_of(dir, entries, files).preloaded, name) is None,
        exists|i: int| #[trigger]
            is_streamed_entry(entries, files, name, i) && sound_named(
                tables_of(dir, entries, files).streaming,
                name,
            ) == Some(sound_path(dir, (entries[i].1.src->0)@)),
{
    let i = lemma_streamed_entry(dir, entries, files, name);
    assert(is_streamed_entry(entries, files, name, i));
    if sound_named(tables_of(dir, entries, files).preloaded, name) is Some {
        let j = lemma_preloaded_entry(dir, entries, files, name);
        assert(names(entries)[i] == names(entries)[j]);
        assert(i == j);
    }
}

/// The entry at an index is the last that an extension leads to.
pub open spec fn is_last_entry_of(
    entries: Seq<(String, SoundEntry)>,
    extension: u32,
    i: int,
) -> bool {
    &&& 0 <= i < entries.len()
    &&& entries[i].1.extension == Some(extension)
    &&& forall|j: int| i < j < entries.len() ==> (#[trigger] entries[j]).1.extension != Some(
        extension,
    )
}

/// An extension leads to the sound of the last entry that names it, and to none where no entry
/// does, whatever becomes of the files.
pub proof fn law_an_extension_leads_to_its_sound(
    dir: Seq<char>,
    entries: Seq<(String, SoundEntry)>,
    files: Seq<SoundFile>,
    extension: u32,
)
    requires
        files.len() == entries.len(),
    ensures
        ({
            let table = tables_of(dir, entries, files).extensions;
            &&& table.contains_key(extension) <==> exists|i: int| #[trigger]
                is_last_entry_of(entries, extension, i)
            &&& forall|i: int| #[trigger]
                is_last_entry_of(entries, extension, i) ==> table[extension] == entries[i].0@
            &&& table.contains_key(extension) <==> exists|i: int|
                0 <= i < entries.len() && (#[trigger] entries[i]).1.extension == Some(extension)
        }),
    decreases entries.len(),
{
    let table = tables_of(dir, entries, files).extensions;
    if entries.len() > 0 {
        let before = entries.drop_last();
        let last = entries.len() - 1;
        law_an_extension_leads_to_its_sound(dir, before, files.drop_last(), extension);
        let earlier = tables_of(dir, before, files.drop_last()).extensions;
        assert(entries[last] == entries.last());
        if entries.last().1.extension == Some(extension) {
            assert(is_last_entry_of(entries, extension, last));
            assert forall|i: int| #[trigger] is_last_entry_of(
                entries,
                extension,
                i,
            ) implies table[extension] == entries[i].0@ by {
                assert(i == last);
            }
        } else {
            assert(table.contains_key(extension) == earlier.contains_key(extension));
            assert forall|i: int| #[trigger] is_last_entry_of(
                entries,
                extension,
                i,
            ) <==> is_last_entry_of(before, extension, i) by {
                if is_last_entry_of(entries, extension, i) {
                    assert(i != last);
                    assert(before[i] == entries[i]);
                    assert forall|j: int| i < j < before.len() implies (
                    #[trigger] before[j]).1.extension != Some(extension) by {
                        assert(before[j] == entries[j]);
                    }
                }
                if is_last_entry_of(before, extension, i) {
                    assert(before[i] == entries[i]);
                    assert forall|j: int| i < j < entries.len() implies (
                    #[trigger] entries[j]).1.extension != Some(extension) by {
                        if j < last {
                            assert(before[j] == entries[j]);
                        }
                    }
                }
            }
            if table.contains_key(extension) {
                let i = choose|i: int| #[trigger] is_last_entry_of(before, extension, i);
                assert(is_last_entry_of(entries, extension, i));
            }
            if exists|i: int|
                0 <= i < entries.len() && (#[trigger] entries[i]).1.extension == Some(extension) {
                let i = choose|i: int|
                    0 <= i < entries.len() && (#[trigger] entries[i]).1.extension == Some(
                        extension,
                    );
                assert(before[i] == entries[i]);
            }
        }
    }
}

/// Samples last a millisecond for every sixteen of them, rounded down.
pub proof fn law_sixteen_samples_last_a_millisecond(samples: nat)
    ensures
        16 * duration_of(samples) <= samples < 16 * duration_of(samples) + 16,
{
}

/// The last value under a name is the one that is found, wherever it stands; without one none is.
pub proof fn law_the_last_value_of_a_name_is_found<T>(
    t: Seq<(Seq<char>, T)>,
    name: Seq<char>,
    k: int,
)
    requires
        -1 <= k < t.len(),
        k >= 0 ==> t[k].0 == name,
        forall|j: int| k < j < t.len() ==> (#[trigger] t[j]).0 != name,
    ensures
        k >= 0 ==> sound_named(t, name) == Some(t[k].1),
        k < 0 ==> sound_named(t, name) is None,
    decreases t.len(),
{
    if t.len() > 0 {
        let last = t.len() - 1;
        assert(t[last] == t.last());
        if k < last {
            let fewer = t.drop_last();
            assert forall|j: int| k < j < fewer.len() implies (#[trigger] fewer[j]).0 != name by {
                assert(fewer[j] == t[j]);
            }
            law_the_last_value_of_a_name_is_found(fewer, name, k);
        }
    }
}

/// A sound of the configuration is found under its name: in memory, with the samples of its file,
/// where it is to be kept there, and else at the path of its file.
pub proof fn law_a_configured_sound_is_found(
    dir: Seq<char>,
    entries: Seq<(String, SoundEntry)>,
    files: Seq<SoundFile>,
    i: int,
)
    requires
        names(entries).no_duplicates(),
        files.len() == entries.len(),
        0 <= i < entries.len(),
        entries[i].1.src is Some,
    ensures
        ({
            let t = tables_of(dir, entries, files);
            let name = entries[i].0@;
            &&& entries[i].1.preload && files[i] is Samples ==> sound_named(t.preloaded, name)
                == Some(files[i]->Samples_0@) && sound_named(t.streaming, name) is None
            &&& !entries[i].1.preload && files[i] is Present ==> sound_named(t.streaming, name)
                == Some(sound_path(dir, (entries[i].1.src->0)@)) && sound_named(t.preloaded, name)
                is None
            &&& files[i] is Missing ==> sound_named(t.preloaded, name) is None && sound_named(
                t.streaming,
                name,
            ) is None
        }),
    decreases entries.len(),
{
    let last = entries.len() - 1;
    let fewer = entries.drop_last();
    let fewer_files = files.drop_last();
    let name = entries[i].0@;
    let ns = names(entries);
    assert(entries[last] == entries.last() && files[last] == files.last());
    assert(names(fewer) =~= ns.drop_last());
    let before = tables_of(dir, fewer, fewer_files);
    let t = tables_of(dir, entries, files);
    lemma_pushed(before.preloaded, t.preloaded, name);
    lemma_pushed(before.streaming, t.streaming, name);
    if i < last {
        assert(fewer[i] == entries[i] && fewer_files[i] == files[i]);
        law_a_configured_sound_is_found(dir, fewer, fewer_files, i);
        assert(ns[i] == name && ns[last] == entries[last].0@);
    } else {
        assert forall|j: int| 0 <= j < fewer.len() implies (#[trigger] fewer[j]).0@ != name by {
            assert(ns[j] == fewer[j].0@ && ns[last] == name);
        }
        lemma_no_such_sound(dir, fewer, fewer_files, name);
    }
}

/// A table that is the same, or has one entry more.
proof fn lemma_pushed<T>(before: Seq<(Seq<char>, T)>, after: Seq<(Seq<char>, T)>, name: Seq<char>)
    ensures
        after.len() > 0 && after == before.push(after.last()) ==> sound_named(after, name) == (
        if after.last().0 == name {
            Some(after.last().1)
        } else {
            sound_named(before, name)
        }),
{
    if after.len() > 0 && after == before.push(after.last()) {
        assert(after.drop_last() =~= before);
    }
}

proof fn lemma_no_such_sound(
    dir: Seq<char>,
    entries: Seq<(String, SoundEntry)>,
    files: Seq<SoundFile>,
    name: Seq<char>,
)
    requires
        files.len() == entries.len(),
        forall|j: int| 0 <= j < entries.len() ==> (#[trigger] entries[j]).0@ != name,
    ensures
        sound_named(tables_of(dir, entries, files).preloaded, name) is None,
        sound_named(tables_of(dir, entries, files).streaming, name) is None,
    decreases entries.len(),
{
    if entries.len() > 0 {
        let fewer = entries.drop_last();
        let fewer_files = files.drop_last();
        assert(entries[entries.len() - 1] == entries.last());
        assert forall|j: int| 0 <= j < fewer.len() implies (#[trigger] fewer[j]).0@ != name by {
            assert(fewer[j] == entries[j]);
        }
        lemma_no_such_sound(dir, fewer, fewer_files, name);
        let before = tables_of(dir, fewer, fewer_files);
        let t = tables_of(dir, entries, files);
        lemma_pushed(before.preloaded, t.preloaded, name);
        lemma_pushed(before.streaming, t.streaming, name);
    }
}

/// A file is told by its first four bytes: "fLaC" starts FLAC and "RIFF" starts WAV, whatever follows.
pub proof fn law_files_are_told_by_their_start(tag: Seq<u8>, rest: Seq<u8>)
    requires
        tag.len() == 4,
    ensures
        ({
            let spells = |w: Seq<char>| forall|i: int|
                0 <= i < 4 ==> #[trigger] tag[i] as int == w[i] as int;
            &&& format_of(tag + rest) == AudioFormat::Flac <==> spells("fLaC"@)
            &&& format_of(tag + rest) == AudioFormat::Wav <==> spells("RIFF"@)
        }),
        rest.len() < 4 ==> format_of(rest) == AudioFormat::Unknown,
{
    reveal_strlit("fLaC");
    reveal_strlit("RIFF");
    let all = tag + rest;
    assert(all[0] == tag[0] && all[1] == tag[1] && all[2] == tag[2] && all[3] == tag[3]);
    assert("fLaC"@[0] == 'f' && "fLaC"@[1] == 'L' && "fLaC"@[2] == 'a' && "fLaC"@[3] == 'C');
    assert("RIFF"@[0] == 'R' && "RIFF"@[1] == 'I' && "RIFF"@[2] == 'F' && "RIFF"@[3] == 'F');
}

/// A sound is taken as it was decoded, sample for sample, where its format is known and its rate is
/// that of the bridge, and in no other case; each refusal names the sound.
pub proof fn law_a_sound_is_taken_as_it_was_decoded(
    r: Result<Vec<i16>, SoundError>,
    data: Seq<u8>,
    name: Seq<char>,
    decoded: Result<(Vec<i16>, u32), String>,
)
    requires
        parsed_as(r, data, name, decoded),
    ensures
        r is Ok <==> format_of(data) != AudioFormat::Unknown && decoded is Ok && decoded->Ok_0.1
            == 16000,
        r is Ok ==> r->Ok_0 == decoded->Ok_0.0,
        r is Err && format_of(data) == AudioFormat::Unknown ==> r->Err_0 is UnknownFormat,
        r is Err && format_of(data) != AudioFormat::Unknown ==> (r->Err_0 is Parse <==> decoded
            is Err) && (r->Err_0 is WrongSampleRate <==> decoded is Ok),
{
}

/// What the caller of a sound's extension hears is in one of the tables: a sound that is streamed
/// goes before one in memory, of which the call waits for the end and a fifth of a second more.
pub proof fn law_a_sound_is_played_to_its_end(
    r: ExtensionPlay,
    m: SoundManager,
    name: Seq<char>,
    samples: Seq<i16>,
)
    requires
        plays(r, m, name),
        name != "test_tone"@,
    ensures
        sound_named(m.streaming_table(), name) is Some <==> r is Stream,
        r is NotFound <==> sound_named(m.streaming_table(), name) is None && sound_named(
            m.preloaded_table(),
            name,
        ) is None,
        sound_named(m.streaming_table(), name) is None && sound_named(m.preloaded_table(), name)
            == Some(samples) && samples.len() <= 0xffff_ffff ==> r is Play && 16 * (r->wait_ms - 200)
            <= samples.len() < 16 * (r->wait_ms - 199),
{
}

/// A sound is looked for in its directory, unless its path starts at the root.
pub proof fn law_where_a_sound_is_looked_for(dir: Seq<char>, src: Seq<char>)
    requires
        dir.len() > 0,
        dir.last() != '/',
    ensures
        sound_path(dir, seq!['/'] + src) == seq!['/'] + src,
        src.len() > 0 && src[0] != '/' ==> sound_path(dir, src) == dir + seq!['/'] + src,
{
    crate::config::law_a_path_has_one_slash_more(dir, src);
}

} // verus!
