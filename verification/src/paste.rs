//! Pictures that are pasted into a message.
use base64::Engine;
use vstd::prelude::*;

use crate::argv;
use crate::argv::quoted_of;
use crate::numeral;
use crate::numeral::dec_usize;
use crate::pieces;
use crate::pieces::{join_of, words_of};
use crate::say;
use crate::say::{msg, Msg};
use crate::session::UserContent;
use crate::text;
use crate::text::{behind, cat, copy_text, same, trimmed};

verus! {

/// The largest picture that is taken, in bytes.
pub const MAX_IMAGE_BYTES: usize = 10485760;

/// A `/paste` command as far as its text tells.
#[derive(Debug)]
pub struct PastePlan<S = String> {
    /// The first word, which may be the path of a picture.
    pub candidate: Option<S>,
    /// What is said with the picture, if the first word is a path.
    pub behind_path: S,
    /// What is said with the picture otherwise.
    pub whole: S,
}

impl PastePlan {
    pub open spec fn view(&self) -> PastePlan<Seq<char>> {
        PastePlan {
            candidate: match self.candidate {
                Some(s) => Some(s@),
                None => None,
            },
            behind_path: self.behind_path@,
            whole: self.whole@,
        }
    }
}

pub open spec fn paste_rest(input: Seq<char>) -> Seq<char> {
    match text::after(input, "/paste"@) {
        Some(r) => text::trim(r),
        None => Seq::empty(),
    }
}

pub open spec fn paste_plan(input: Seq<char>) -> PastePlan<Seq<char>> {
    let w = pieces::words(paste_rest(input));
    if w.len() == 0 {
        PastePlan { candidate: None, behind_path: Seq::empty(), whole: Seq::empty() }
    } else {
        PastePlan {
            candidate: Some(w[0]),
            behind_path: pieces::join(w.skip(1), " "@),
            whole: paste_rest(input),
        }
    }
}

/// `/paste [path] [text]`: a picture of a file, or of the clipboard, with a text.
pub fn handle_paste(input: &str) -> (r: PastePlan)
    ensures
        r.view() == paste_plan(input@),
{
    let rest = match behind(input, "/paste") {
        Some(r) => trimmed(&r),
        None => String::new(),
    };
    let w = words_of(&rest);
    let ghost wv = pieces::words(rest@);
    assert(wv.len() == w.len());
    if w.len() == 0 {
        return PastePlan { candidate: None, behind_path: String::new(), whole: String::new() };
    }
    let mut tail: Vec<String> = Vec::new();
    let mut i: usize = 1;
    assert(text::texts(tail@) =~= wv.subrange(1, 1));
    while i < w.len()
        invariant
            1 <= i <= w.len(),
            wv == text::texts(w@),
            text::texts(tail@) == wv.subrange(1, i as int),
        decreases w.len() - i,
    {
        let s = copy_text(&w[i]);
        proof {
            text::lemma_texts_push(tail@, s);
        }
        tail.push(s);
        i = i + 1;
        assert(text::texts(tail@) =~= wv.subrange(1, i as int));
    }
    assert(wv.subrange(1, i as int) =~= wv.skip(1));
    assert(wv[0] == w@[0]@);
    PastePlan {
        candidate: Some(copy_text(&w[0])),
        behind_path: join_of(&tail, " "),
        whole: rest,
    }
}

// ── Bytes as text ───────────────────────────────────────────────────────────

/// The digits of base 64.
pub open spec fn base64_digits() -> Seq<char> {
    "ABCDEFGHIJKLMNOPQRSTUVWXYZabcdefghijklmnopqrstuvwxyz0123456789+/"@
}

/// A byte, or zero behind the last one.
pub open spec fn byte_or_zero(b: Seq<u8>, i: int) -> int {
    if 0 <= i < b.len() {
        b[i] as int
    } else {
        0
    }
}

/// The group of six bits with this number.
pub open spec fn six_bits(b: Seq<u8>, i: int) -> int {
    let g = i / 4 * 3;
    if i % 4 == 0 {
        byte_or_zero(b, g) / 4
    } else if i % 4 == 1 {
        byte_or_zero(b, g) % 4 * 16 + byte_or_zero(b, g + 1) / 16
    } else if i % 4 == 2 {
        byte_or_zero(b, g + 1) % 16 * 4 + byte_or_zero(b, g + 2) / 64
    } else {
        byte_or_zero(b, g + 2) % 64
    }
}

/// Bytes in base 64: a digit for each six bits that are begun, filled up with `=` to a
/// multiple of four.
pub open spec fn base64(b: Seq<u8>) -> Seq<char> {
    Seq::new(
        ((b.len() + 2) / 3 * 4) as nat,
        |i: int|
            if i < (b.len() * 8 + 5) / 6 {
                base64_digits()[six_bits(b, i)]
            } else {
                '='
            },
    )
}

/// Whether a text can hold so many bytes in base 64: it is at most `isize::MAX` bytes long.
pub open spec fn encodable(n: nat) -> bool {
    (n + 2) / 3 * 4 <= isize::MAX
}

/// `encode` of the engine `base64::engine::general_purpose::STANDARD`: the bytes in base 64
/// with the standard digits and filled up with `=`. Where that text is longer than a text can
/// be, the call panics.
#[verifier::external_body]
fn encode_base64(bytes: &Vec<u8>) -> (r: String)
    requires
        encodable(bytes@.len()),
    ensures
        r@ == base64(bytes@),
{
    base64::engine::general_purpose::STANDARD.encode(bytes)
}

// ── Pictures ────────────────────────────────────────────────────────────────

pub open spec fn mime_of(ext: Option<Seq<char>>) -> Option<Seq<char>> {
    match ext {
        None => None,
        Some(e) => if e == "png"@ {
            Some("image/png"@)
        } else if e == "jpg"@ || e == "jpeg"@ {
            Some("image/jpeg"@)
        } else if e == "gif"@ {
            Some("image/gif"@)
        } else if e == "webp"@ {
            Some("image/webp"@)
        } else {
            None
        },
    }
}

/// An extension as it is shown in a message: in quotes inside `Some`, or `None`.
pub open spec fn shown_extension(ext: Option<Seq<char>>) -> Seq<char> {
    match ext {
        Some(e) => "Some("@ + argv::quoted(e) + ")"@,
        None => "None"@,
    }
}

pub open spec fn too_large(n: nat) -> say::MsgView {
    say::entry("paste.image_too_large"@).arg("n"@, numeral::dec(n))
}

/// The picture of a file with these bytes, whose name has this extension.
pub fn image_of_file(ext: &Option<String>, bytes: &Vec<u8>) -> (r: Result<UserContent, Msg>)
    ensures
        match r {
            Ok(c) => {
                &&& bytes.len() <= MAX_IMAGE_BYTES
                &&& c matches UserContent::Image { mime, data } && mime_of(
                    crate::session::opt_text(*ext),
                ) == Some(mime@) && data@ == base64(bytes@)
            },
            Err(m) => if bytes.len() > MAX_IMAGE_BYTES {
                m@ == too_large(bytes.len() as nat)
            } else {
                &&& mime_of(crate::session::opt_text(*ext)) is None
                &&& m@ == say::entry("paste.unsupported_format"@).arg(
                    "fmt"@,
                    shown_extension(crate::session::opt_text(*ext)),
                )
            },
        },
{
    if bytes.len() > MAX_IMAGE_BYTES {
        return Err(msg("paste.image_too_large").arg("n", &dec_usize(bytes.len())));
    }
    let (mime, shown): (Option<&str>, String) = match ext {
        Some(e) => {
            let m = if same(e, "png") {
                Some("image/png")
            } else if same(e, "jpg") || same(e, "jpeg") {
                Some("image/jpeg")
            } else if same(e, "gif") {
                Some("image/gif")
            } else if same(e, "webp") {
                Some("image/webp")
            } else {
                None
            };
            (m, cat(&cat("Some(", &quoted_of(e)), ")"))
        },
        None => (None, copy_text("None")),
    };
    match mime {
        Some(m) => Ok(UserContent::Image { mime: copy_text(m), data: encode_base64(bytes) }),
        None => Err(msg("paste.unsupported_format").arg("fmt", &shown)),
    }
}

/// The message with which a picture of the clipboard is refused, if it is: its width or its
/// height does not fit in 32 bits, its pixels are too many bytes, or too few for its size.
pub open spec fn clipboard_refusal(width: usize, height: usize, n: nat) -> Option<say::MsgView> {
    if width > u32::MAX {
        Some(say::entry("paste.cb_width_overflow"@))
    } else if height > u32::MAX {
        Some(say::entry("paste.cb_height_overflow"@))
    } else if n > MAX_IMAGE_BYTES {
        Some(too_large(n))
    } else if !pixels_suffice(width as u32, height as u32, n) {
        Some(say::entry("paste.cb_invalid"@))
    } else {
        None
    }
}

/// The size of a picture of the clipboard: its width and height fit in 32 bits and its
/// pixels are not too many bytes.
fn clipboard_size(width: usize, height: usize, bytes: usize) -> (r: Result<(u32, u32), Msg>)
    ensures
        match r {
            Ok((w, h)) => {
                &&& w == width
                &&& h == height
                &&& bytes <= MAX_IMAGE_BYTES
            },
            Err(m) => {
                &&& width > u32::MAX || height > u32::MAX || bytes > MAX_IMAGE_BYTES
                &&& clipboard_refusal(width, height, bytes as nat) == Some(m@)
            },
        },
{
    if width > u32::MAX as usize {
        return Err(msg("paste.cb_width_overflow"));
    }
    if height > u32::MAX as usize {
        return Err(msg("paste.cb_height_overflow"));
    }
    if bytes > MAX_IMAGE_BYTES {
        return Err(msg("paste.image_too_large").arg("n", &dec_usize(bytes)));
    }
    Ok((width as u32, height as u32))
}

/// The PNG file of a picture with this width and height and these RGBA pixels, or what keeps
/// it from being written.
pub uninterp spec fn png_file(width: u32, height: u32, pixels: Seq<u8>) -> Result<Seq<u8>, Seq<char>>;

/// Whether four bytes for each pixel are there. The product is formed from the left, and a
/// row alone must fit in memory.
pub open spec fn pixels_suffice(width: u32, height: u32, n: nat) -> bool {
    4 * width <= usize::MAX && 4 * width * height <= n
}

/// `image::ImageBuffer::from_raw` for RGBA pixels, and `write_to` of the picture as
/// `image::ImageFormat::Png`: there is no picture where the pixels do not suffice, and
/// otherwise its file is a function of its size and pixels. The text of an error is that of
/// its `Display`. With more pixels than the size tells the call panics.
#[verifier::external_body]
fn write_png(width: u32, height: u32, pixels: Vec<u8>) -> (r: Option<Result<Vec<u8>, String>>)
    requires
        pixels.len() <= 4 * width * height,
    ensures
        r is Some == pixels_suffice(width, height, pixels.len() as nat),
        match r {
            Some(Ok(f)) => png_file(width, height, pixels@) == Ok::<Seq<u8>, Seq<char>>(f@),
            Some(Err(e)) => png_file(width, height, pixels@) == Err::<Seq<u8>, Seq<char>>(e@),
            None => true,
        },
{
    let picture: image::ImageBuffer<image::Rgba<u8>, Vec<u8>> =
        image::ImageBuffer::from_raw(width, height, pixels)?;
    let mut file: Vec<u8> = Vec::new();
    let written = image::DynamicImage::ImageRgba8(picture).write_to(
        &mut std::io::Cursor::new(&mut file),
        image::ImageFormat::Png,
    );
    match written {
        Ok(()) => Some(Ok(file)),
        Err(e) => Some(Err(e.to_string())),
    }
}

/// The picture of a PNG file with these bytes.
pub fn image_of_png(png: &Vec<u8>) -> (r: UserContent)
    requires
        encodable(png@.len()),
    ensures
        r matches UserContent::Image { mime, data } && mime@ == "image/png"@ && data@ == base64(
            png@,
        ),
{
    UserContent::Image { mime: copy_text("image/png"), data: encode_base64(png) }
}

/// Why the clipboard gives no picture.
#[derive(Debug)]
pub enum ClipboardError {
    /// It is refused with this message.
    Refused(Msg),
    /// Its file cannot be written, for this reason.
    Unwritten(String),
}

/// The picture of the clipboard, of its RGBA pixels. `None` where its file is so
/// large that no text can hold it in base 64.
pub fn image_of_clipboard(width: usize, height: usize, pixels: Vec<u8>) -> (r: Option<
    Result<UserContent, ClipboardError>,
>)
    requires
        pixels.len() <= 4 * width * height || pixels.len() > MAX_IMAGE_BYTES || width > u32::MAX
            || height > u32::MAX,
    ensures
        ({
            let pick = clipboard_refusal(width, height, pixels.len() as nat);
            match pick {
                Some(m) => r matches Some(Err(ClipboardError::Refused(e))) && e@ == m,
                None => match png_file(width as u32, height as u32, pixels@) {
                    Ok(f) => if !encodable(f.len()) {
                        r is None
                    } else {
                        r matches Some(Ok(UserContent::Image { mime, data })) && mime@
                            == "image/png"@ && data@ == base64(f)
                    },
                    Err(e) => r matches Some(Err(ClipboardError::Unwritten(t))) && t@ == e,
                },
            }
        }),
{
    let (w, h) = match clipboard_size(width, height, pixels.len()) {
        Ok(p) => p,
        Err(m) => {
            return Some(Err(ClipboardError::Refused(m)));
        },
    };
    match write_png(w, h, pixels) {
        None => Some(Err(ClipboardError::Refused(msg("paste.cb_invalid")))),
        Some(Err(e)) => Some(Err(ClipboardError::Unwritten(e))),
        Some(Ok(f)) => {
            let most: usize = isize::MAX as usize / 4 * 3;
            if f.len() > most {
                None
            } else {
                Some(Ok(image_of_png(&f)))
            }
        },
    }
}

/// A `/paste` with words behind it: the first may be a path, the others are then what is said
/// with the picture; all of them are, where it is none.
pub proof fn words_behind_paste_are_kept(w: Seq<Seq<char>>)
    requires
        w.len() > 0,
        forall|i: int| 0 <= i < w.len() ==> pieces::is_word(#[trigger] w[i]),
    ensures
        paste_plan("/paste "@ + pieces::join(w, seq![' '])) == (PastePlan {
            candidate: Some(w[0]),
            behind_path: pieces::join(w.skip(1), seq![' ']),
            whole: pieces::join(w, seq![' ']),
        }),
{
    let t = pieces::join(w, seq![' ']);
    let input = "/paste "@ + t;
    reveal_strlit("/paste ");
    reveal_strlit("/paste");
    reveal_strlit(" ");
    assert(" "@ =~= seq![' ']);
    pieces::words_read_back(w);
    assert(input.take(6) =~= "/paste"@);
    assert(input.skip(6) =~= seq![' '] + t + Seq::empty());
    joined_words_are_trimmed(w);
    text::white_space_around_goes(seq![' '], t, Seq::empty());
}

proof fn joined_words_are_trimmed(w: Seq<Seq<char>>)
    requires
        w.len() > 0,
        forall|i: int| 0 <= i < w.len() ==> pieces::is_word(#[trigger] w[i]),
    ensures
        ({
            let t = pieces::join(w, seq![' ']);
            t.len() > 0 && t[0] == w[0][0] && t.last() == w.last().last() && text::is_trimmed(t)
        }),
    decreases w.len(),
{
    let l = w.last();
    assert(pieces::is_word(w[w.len() - 1]));
    assert(pieces::is_word(w[0]));
    if w.len() == 1 {
        assert(w.drop_last() =~= Seq::empty());
    } else {
        let d = w.drop_last();
        assert forall|i: int| 0 <= i < d.len() implies pieces::is_word(#[trigger] d[i]) by {
            assert(d[i] == w[i]);
        }
        joined_words_are_trimmed(d);
    }
    let t = pieces::join(w, seq![' ']);
    assert(!text::is_white(w[0][0]));
    assert(!text::is_white(l[l.len() - 1]));
}

} // verus!
