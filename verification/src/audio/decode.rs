//! Audio files: which can be read, how, and what to say when one cannot.

use vstd::prelude::*;
use vstd::string::*;
use crate::audio::loopback::read_samples;
use crate::audio::loopback::sample_at;
use crate::error::AppError;
use crate::error::AppResult;
use crate::error::ErrorView;
use crate::num::Single;
use crate::text::ascii_lowered;
use crate::text::opt_view;
use crate::text::pieces;
use crate::text::same;
use crate::text::to_ascii_lowered;
use crate::text::trim;
use crate::text::trimmed;
use crate::util::truncate_chars;
use crate::util::truncated;

verus! {

/// Extensions of files that can be imported.
pub const COMMON_AUDIO_EXTENSIONS: [&'static str; 12] = [
    "wav",
    "mp3",
    "m4a",
    "aac",
    "flac",
    "ogg",
    "opus",
    "wma",
    "amr",
    "mp4",
    "mkv",
    "webm",
];

pub open spec fn slash(c: char) -> bool {
    c == '/'
}

/// What separates the parts of a path on some system.
pub open spec fn separates(c: char) -> bool {
    c == '/' || c == '\\' || c == ':'
}

/// What follows the last slash.
pub open spec fn last_part(path: Seq<char>) -> Seq<char> {
    pieces(path, |c: char| slash(c)).last()
}

/// Where the last dot of a name is; -1 if it has none.
pub open spec fn last_dot(name: Seq<char>) -> int
    decreases name.len(),
{
    if name.len() == 0 {
        -1
    } else if name.last() == '.' {
        name.len() - 1
    } else {
        last_dot(name.drop_last())
    }
}

/// The extension of a file's name: what follows the last dot, unless that dot is
/// what the name begins with.
pub open spec fn extension_in(name: Seq<char>) -> Option<Seq<char>> {
    if name == ".."@ || last_dot(name) <= 0 {
        None
    } else {
        Some(name.skip(last_dot(name) + 1))
    }
}

/// What follows the last separator of any system.
pub open spec fn tail(path: Seq<char>) -> Seq<char> {
    pieces(path, |c: char| separates(c)).last()
}

/// Whether a path begins with two slashes of either kind, as names of servers do.
pub open spec fn rooted_twice(path: Seq<char>) -> bool {
    &&& path.len() >= 2
    &&& path[0] == '/' || path[0] == '\\'
    &&& path[1] == '/' || path[1] == '\\'
}

/// A path whose extension is the same on every system, whether backslashes and
/// colons separate its parts or belong to its names. It ends in a name, and either
/// only slashes matter at its end, or its name has a dot that does not begin it, or
/// there is no dot after the last slash.
pub open spec fn portable(path: Seq<char>) -> bool {
    let name = tail(path);
    &&& !rooted_twice(path)
    &&& name.len() > 0
    &&& {
        ||| name == last_part(path) && name != "."@
        ||| last_dot(name) > 0 && name != ".."@
        ||| !last_part(path).contains('.')
    }
}

/// `std::path::Path::extension`: nothing if the last part of the path has no dot
/// but for one at its start; otherwise what follows its last dot. Of paths that
/// systems take apart differently, or that do not end in a name, nothing is
/// claimed.
#[verifier::external_body]
fn path_extension(path: &str) -> (r: Option<String>)
    ensures
        portable(path@) ==> opt_view(r) == extension_in(tail(path@)),
{
    std::path::Path::new(path).extension().and_then(|e| e.to_str()).map(|e| e.to_owned())
}

/// The extension in lower case, empty if there is none.
pub open spec fn lower_extension(ext: Option<Seq<char>>) -> Seq<char> {
    match ext {
        Some(e) => ascii_lowered(e),
        None => Seq::empty(),
    }
}

pub open spec fn known_extension(ext: Option<Seq<char>>) -> bool {
    exists|i: int| 0 <= i < 12 && lower_extension(ext) == #[trigger] COMMON_AUDIO_EXTENSIONS[i]@
}

fn lower(ext: &Option<String>) -> (r: String)
    ensures
        r@ == lower_extension(opt_view(*ext)),
{
    match ext {
        Some(e) => to_ascii_lowered(e.as_str()),
        None => String::new(),
    }
}

/// Whether files with an extension can be imported.
pub fn is_supported_extension(ext: &Option<String>) -> (r: bool)
    ensures
        r == known_extension(opt_view(*ext)),
{
    let name = lower(ext);
    let mut i: usize = 0;
    while i < 12
        invariant
            i <= 12,
            name@ == lower_extension(opt_view(*ext)),
            forall|j: int| 0 <= j < i ==> name@ != #[trigger] COMMON_AUDIO_EXTENSIONS[j]@,
        decreases 12 - i,
    {
        if same(name.as_str(), COMMON_AUDIO_EXTENSIONS[i]) {
            proof {
                assert(name@ == COMMON_AUDIO_EXTENSIONS[i as int]@);
            }
            return true;
        }
        i += 1;
    }
    false
}

/// Whether a file can be imported, by its name.
pub fn is_supported(path: &str) -> (r: bool)
    ensures
        portable(path@) ==> r == known_extension(extension_in(tail(path@))),
{
    is_supported_extension(&path_extension(path))
}

/// How a file is read.
#[derive(Clone, Copy, Debug, PartialEq, Eq, Structural)]
pub enum Decoder {
    /// Here.
    Wav,
    /// By ffmpeg.
    Ffmpeg,
}

/// The decoder for an extension.
pub fn decoder_for_extension(ext: &Option<String>) -> (r: Decoder)
    ensures
        r == if lower_extension(opt_view(*ext)) == "wav"@ {
            Decoder::Wav
        } else {
            Decoder::Ffmpeg
        },
{
    if same(lower(ext).as_str(), "wav") {
        Decoder::Wav
    } else {
        Decoder::Ffmpeg
    }
}

/// The decoder for a file; an error if there is no such file.
pub fn choose_decoder(path: &str, is_file: bool) -> (r: AppResult<Decoder>)
    ensures
        match r {
            Ok(d) => is_file && (portable(path@) ==> d == if lower_extension(
                extension_in(tail(path@)),
            ) == "wav"@ {
                Decoder::Wav
            } else {
                Decoder::Ffmpeg
            }),
            Err(e) => !is_file && e@ == ErrorView::Audio("文件不存在："@ + path@),
        },
{
    if !is_file {
        return Err(missing_file(path));
    }
    Ok(decoder_for_extension(&path_extension(path)))
}

/// The error where a file does not exist.
pub fn missing_file(path: &str) -> (r: AppError)
    ensures
        r@ == ErrorView::Audio("文件不存在："@ + path@),
{
    let mut m = "文件不存在：".to_owned();
    m.append(path);
    AppError::Audio(m)
}

/// The error where ffmpeg cannot be run.
pub fn ffmpeg_not_run(path: &str, not_found: bool, why: &str) -> (r: AppError)
    ensures
        r@ == ErrorView::Audio(
            if not_found {
                "解码 "@ + path@
                    + " 需要 ffmpeg，但系统里没有找到 ffmpeg。请安装 ffmpeg，或先把文件转成 WAV 再导入。"@
            } else {
                "调用 ffmpeg 失败："@ + why@
            },
        ),
{
    if not_found {
        let mut m = "解码 ".to_owned();
        m.append(path);
        m.append(
            " 需要 ffmpeg，但系统里没有找到 ffmpeg。请安装 ffmpeg，或先把文件转成 WAV 再导入。",
        );
        AppError::Audio(m)
    } else {
        let mut m = "调用 ffmpeg 失败：".to_owned();
        m.append(why);
        AppError::Audio(m)
    }
}

/// Takes what ffmpeg gave back: samples of four bytes each, or what it said
/// where it failed.
pub fn read_ffmpeg(path: &str, success: bool, stdout: &Vec<u8>, stderr: &str) -> (r: AppResult<
    Vec<Single>,
>)
    ensures
        if !success {
            r matches Err(e) && e@ == ErrorView::Audio(
                "ffmpeg 解码失败（"@ + path@ + "）："@ + truncated(trimmed(stderr@), 300),
            )
        } else if stdout@.len() < 4 {
            r matches Err(e) && e@ == ErrorView::Audio(
                "解码结果为空，文件可能损坏或没有音频轨道"@,
            )
        } else {
            r matches Ok(v) && v@ == Seq::new(
                stdout@.len() / 4,
                |i: int| sample_at(stdout@, i),
            )
        },
{
    if !success {
        let mut m = "ffmpeg 解码失败（".to_owned();
        m.append(path);
        m.append("）：");
        m.append(truncate_chars(trim(stderr), 300).as_str());
        return Err(AppError::Audio(m));
    }
    if stdout.len() < 4 {
        return Err(AppError::audio("解码结果为空，文件可能损坏或没有音频轨道"));
    }
    let (samples, _) = read_samples(stdout);
    Ok(samples)
}

/// The extension is what follows the last dot of a name.
pub proof fn law_extension_follows_the_last_dot(stem: Seq<char>, ext: Seq<char>)
    requires
        stem.len() > 0,
        ext.len() > 0,
        !ext.contains('.'),
    ensures
        extension_in(stem + seq!['.'] + ext) == Some(ext),
{
    let name = stem + seq!['.'] + ext;
    lemma_last_dot(stem + seq!['.'], ext);
    assert((stem + seq!['.']).last() == '.');
    assert(name.skip(stem.len() as int + 1) =~= ext);
    reveal_strlit("..");
    if name == ".."@ {
        assert(name.last() == '.');
        assert(ext.last() == '.');
        assert(ext.contains(ext[ext.len() - 1]));
    }
}

proof fn lemma_last_dot(a: Seq<char>, b: Seq<char>)
    requires
        a.len() > 0,
        a.last() == '.',
        !b.contains('.'),
    ensures
        last_dot(a + b) == a.len() - 1,
    decreases b.len(),
{
    if b.len() == 0 {
        assert(a + b =~= a);
    } else {
        let head = b.drop_last();
        assert(b.contains(b[b.len() - 1]));
        assert((a + b).drop_last() =~= a + head);
        assert((a + b).last() == b.last());
        assert forall|i: int| 0 <= i < head.len() implies head[i] != '.' by {
            assert(b.contains(b[i]));
        }
        lemma_last_dot(a, head);
    }
}

/// Files are read here if they are WAV files, in whatever case their names are, and
/// recordings of the usual kinds can be imported.
pub proof fn law_usual_recordings_can_be_imported(ext: Seq<char>)
    ensures
        ascii_lowered(ext) == "wav"@ || ascii_lowered(ext) == "mp3"@ || ascii_lowered(ext) == "m4a"@
            || ascii_lowered(ext) == "flac"@ || ascii_lowered(ext) == "ogg"@ || ascii_lowered(ext)
            == "mp4"@ ==> known_extension(Some(ext)),
        ascii_lowered(ext) == "txt"@ ==> !known_extension(Some(ext)),
        !known_extension(None),
{
    assert(COMMON_AUDIO_EXTENSIONS[0]@ == "wav"@);
    assert(COMMON_AUDIO_EXTENSIONS[1]@ == "mp3"@);
    assert(COMMON_AUDIO_EXTENSIONS[2]@ == "m4a"@);
    assert(COMMON_AUDIO_EXTENSIONS[4]@ == "flac"@);
    assert(COMMON_AUDIO_EXTENSIONS[5]@ == "ogg"@);
    assert(COMMON_AUDIO_EXTENSIONS[9]@ == "mp4"@);
    reveal_strlit("wav");
    reveal_strlit("mp3");
    reveal_strlit("m4a");
    reveal_strlit("aac");
    reveal_strlit("flac");
    reveal_strlit("ogg");
    reveal_strlit("opus");
    reveal_strlit("wma");
    reveal_strlit("amr");
    reveal_strlit("mp4");
    reveal_strlit("mkv");
    reveal_strlit("webm");
    reveal_strlit("txt");
    assert forall|i: int| 0 <= i < 12 implies "txt"@ != #[trigger] COMMON_AUDIO_EXTENSIONS[i]@
        && Seq::<char>::empty() != COMMON_AUDIO_EXTENSIONS[i]@ by {
        assert("txt"@[0] == 't');
        assert(COMMON_AUDIO_EXTENSIONS[i]@[0] != 't');
        assert(COMMON_AUDIO_EXTENSIONS[i]@.len() > 0);
    }
}

} // verus!
