use vstd::prelude::*;
use vstd::utf8::{decode_utf8, encode_utf8, is_ascii_chars, is_char_boundary};

use crate::sanitizer::{sanitized, sanitized_is_clean};

verus! {

broadcast use {vstd::string::group_string_axioms, vstd::utf8::group_utf8_lib};

/// The extension of the saved audio files.
pub const FILE_EXTENSION: &'static str = ".mp3";

/// The longest file-name stem, in bytes: Linux's NAME_MAX (255) less the 4 bytes of
/// `FILE_EXTENSION`. It caps the file name and the log preview, not what is sent to
/// the speech service.
pub const PREVIEW_MAX_CHARS: usize = 251;

/// The most input that Google Cloud Text-to-Speech accepts in one request.
pub const GOOGLE_TTS_MAX_BYTES: usize = 5000;

/// The number of bytes of the UTF-8 encoding of `s` that the preview keeps.
pub open spec fn preview_len(s: Seq<char>) -> int {
    let n = encode_utf8(s).len() as int;
    if n < PREVIEW_MAX_CHARS {
        n
    } else {
        PREVIEW_MAX_CHARS as int
    }
}

/// The preview of `s` can be cut: its last byte ends a character.
pub open spec fn can_preview(s: Seq<char>) -> bool {
    is_char_boundary(encode_utf8(s), preview_len(s))
}

/// The text of the preview: the first `preview_len(s)` bytes of `s`, decoded.
pub open spec fn preview_text(s: Seq<char>) -> Seq<char> {
    decode_utf8(encode_utf8(s).take(preview_len(s)))
}

/// The first `n` characters of `s`, or all of `s` when it is shorter.
pub open spec fn first_chars(s: Seq<char>, n: int) -> Seq<char> {
    if s.len() <= n {
        s
    } else {
        s.take(n)
    }
}

/// The path at which the audio for a preview is saved: `dir/preview.mp3`.
pub open spec fn audio_path(dir: Seq<char>, preview: Seq<char>) -> Seq<char> {
    dir + seq!['/'] + preview + FILE_EXTENSION@
}

/// Truncates `text` to at most `PREVIEW_MAX_CHARS` bytes for use as a file name.
/// The cut must fall between characters, which holds for ASCII text such as what
/// `sanitize` returns.
pub fn preview(text: &str) -> (p: &str)
    requires
        can_preview(text@),
        encode_utf8(text@).len() <= usize::MAX,
    ensures
        encode_utf8(p@) == encode_utf8(text@).take(preview_len(text@)),
        encode_utf8(p@).len() <= PREVIEW_MAX_CHARS,
        p@ == preview_text(text@),
        p@.is_prefix_of(text@),
{
    let n = if text.len() < PREVIEW_MAX_CHARS {
        text.len()
    } else {
        PREVIEW_MAX_CHARS
    };
    let (head, _) = text.split_at(n);
    proof {
        let bytes = encode_utf8(text@);
        assert(bytes.subrange(0, n as int) == bytes.take(n as int));
        assert(head@ == decode_utf8(encode_utf8(head@)));
        vstd::utf8::decode_utf8_split(bytes, n as int);
        assert(text@ == decode_utf8(bytes));
        assert(text@ == head@ + decode_utf8(bytes.subrange(n as int, bytes.len() as int)));
        assert(text@.take(head@.len() as int) =~= head@);
    }
    head
}

/// Builds the path of the audio file for a preview: `save_dir/preview.mp3`.
pub fn save_path(dir: &str, preview: &str) -> (p: String)
    ensures
        p@ == audio_path(dir@, preview@),
{
    let mut p = String::new();
    p.push_str(dir);
    p.push('/');
    p.push_str(preview);
    p.push_str(FILE_EXTENSION);
    p
}

/// Keeps the first `max_chars` characters of `text` (all of it when it is shorter);
/// it cuts between characters, never inside one.
pub fn cap_text(text: &str, max_chars: usize) -> (r: String)
    ensures
        r@ == first_chars(text@, max_chars as int),
        r@.is_prefix_of(text@),
        r@.len() == if text@.len() <= max_chars {
            text@.len() as int
        } else {
            max_chars as int
        },
{
    let mut out = String::new();
    let mut kept: usize = 0;
    for ch in it: text.chars()
        invariant
            it.seq() == text@,
            kept <= max_chars,
            kept as int == if it.index() < max_chars {
                it.index()
            } else {
                max_chars as int
            },
            out@ == text@.take(kept as int),
    {
        if kept < max_chars {
            proof {
                assert(text@.take(kept + 1) == text@.take(kept as int).push(ch));
            }
            out.push(ch);
            kept = kept + 1;
        }
    }
    proof {
        if text@.len() <= max_chars {
            assert(text@.take(text@.len() as int) == text@);
        }
    }
    out
}

/// What a synthesis request needs from the library: the text sent to the speech service
/// and the path at which its audio is saved.
pub struct SynthesisJob {
    pub request_text: String,
    pub audio_path: String,
}

/// Plans the synthesis of `text`: the request carries at most `text_cap` characters, and
/// the audio is saved under `save_dir`, named by the preview of the whole text.
pub fn plan_synthesis(text: &str, text_cap: usize, save_dir: &str) -> (job: SynthesisJob)
    requires
        can_preview(text@),
        encode_utf8(text@).len() <= usize::MAX,
    ensures
        job.request_text@ == first_chars(text@, text_cap as int),
        job.audio_path@ == audio_path(save_dir@, preview_text(text@)),
{
    let request_text = cap_text(text, text_cap);
    let audio_path = save_path(save_dir, preview(text));
    SynthesisJob { request_text, audio_path }
}

/// The extension is `.mp3`, so a preview stem of at most `PREVIEW_MAX_CHARS` bytes makes a
/// file name of at most 255 bytes.
pub proof fn file_name_fits()
    ensures
        FILE_EXTENSION@ == seq!['.', 'm', 'p', '3'],
        PREVIEW_MAX_CHARS + 4 == 255,
{
    reveal_strlit(".mp3");
}

/// ASCII text (such as sanitized text) can always be previewed, and its preview is simply
/// its first `PREVIEW_MAX_CHARS` characters.
pub proof fn ascii_text_previews_by_chars(s: Seq<char>)
    requires
        is_ascii_chars(s),
    ensures
        can_preview(s),
        preview_text(s) == first_chars(s, PREVIEW_MAX_CHARS as int),
{
    let bytes = encode_utf8(s);
    let n = preview_len(s);
    assert(bytes.len() == s.len());
    if n < bytes.len() {
        let b = bytes[n];
        assert(b == s[n] as u8);
        assert((s[n] as nat) < 128);
        assert(!vstd::utf8::is_continuation_byte(b));
    }
    let t = first_chars(s, PREVIEW_MAX_CHARS as int);
    assert(is_ascii_chars(t));
    assert(encode_utf8(t).len() == t.len());
    assert(bytes.take(n) =~= encode_utf8(t)) by {
        assert forall|i: int| 0 <= i < n implies #[trigger] bytes.take(n)[i] == encode_utf8(t)[i] by {
            assert(t[i] == s[i]);
        }
    }
}

/// Text that went through `sanitize` can always be previewed, by its first
/// `PREVIEW_MAX_CHARS` characters.
pub proof fn sanitized_text_can_be_previewed(raw: Seq<char>)
    ensures
        can_preview(sanitized(raw)),
        preview_text(sanitized(raw)) == first_chars(sanitized(raw), PREVIEW_MAX_CHARS as int),
{
    sanitized_is_clean(raw);
    ascii_text_previews_by_chars(sanitized(raw));
}

/// The last component of a path: what follows its last `/` (all of it when it has none).
pub open spec fn file_name(path: Seq<char>) -> Seq<char>
    decreases path.len(),
{
    if path.len() == 0 || path.last() == '/' {
        Seq::empty()
    } else {
        file_name(path.drop_last()).push(path.last())
    }
}

proof fn lemma_file_name_within_tail(a: Seq<char>, b: Seq<char>)
    ensures
        file_name(a + seq!['/'] + b).len() <= b.len(),
        forall|i: int|
            0 <= i < file_name(a + seq!['/'] + b).len() ==> #[trigger] file_name(
                a + seq!['/'] + b,
            )[i] == b[b.len() - file_name(a + seq!['/'] + b).len() + i],
    decreases b.len(),
{
    let p = a + seq!['/'] + b;
    if b.len() == 0 {
        assert(p.last() == '/');
    } else {
        let bl = b.drop_last();
        lemma_file_name_within_tail(a, bl);
        assert(p.drop_last() == a + seq!['/'] + bl);
        assert(p.last() == b.last());
    }
}

/// The file that `save_path(dir, preview(text))` names fits Linux's NAME_MAX: for ASCII
/// text (such as sanitized text) its name, the last component of the path, is at most
/// 255 bytes long, whatever the directory.
pub proof fn saved_file_name_fits(dir: Seq<char>, text: Seq<char>)
    requires
        is_ascii_chars(text),
    ensures
        encode_utf8(file_name(audio_path(dir, preview_text(text)))).len() <= 255,
{
    ascii_text_previews_by_chars(text);
    file_name_fits();
    let q = preview_text(text);
    let tail = q + FILE_EXTENSION@;
    assert(audio_path(dir, q) =~= dir + seq!['/'] + tail);
    lemma_file_name_within_tail(dir, tail);
    let f = file_name(dir + seq!['/'] + tail);
    assert(q.len() <= PREVIEW_MAX_CHARS);
    assert(is_ascii_chars(tail)) by {
        assert forall|i: int| 0 <= i < tail.len() implies '\0' <= #[trigger] tail[i] <= '\u{7f}' by {
            if i < q.len() {
                assert(tail[i] == text[i]);
            } else {
                assert(tail[i] == FILE_EXTENSION@[i - q.len()]);
            }
        }
    }
    assert(is_ascii_chars(f)) by {
        assert forall|i: int| 0 <= i < f.len() implies '\0' <= #[trigger] f[i] <= '\u{7f}' by {
            assert(f[i] == tail[tail.len() - f.len() + i]);
        }
    }
}

/// Capping keeps the start: for every limit `n`, `first_chars(s, n)` is a prefix of `s`
/// whose length is the smaller of `n` and the length of `s`.
pub proof fn capped_text_is_prefix(s: Seq<char>, n: int)
    requires
        n >= 0,
    ensures
        first_chars(s, n).is_prefix_of(s),
        first_chars(s, n).len() == if s.len() <= n {
            s.len() as int
        } else {
            n
        },
{
}

} // verus!
