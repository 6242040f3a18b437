//! What reading and writing the pasteboard is for: what was copied is what is read, in the
//! best of its forms, and what arrived is what can be pasted.

use crate::clipboard;
use crate::clipboard::{ClipboardKind, Item};
use crate::exchange_laws;
use crate::frame;
use crate::number;
use crate::number_laws;
use crate::pasteboard;
use crate::pasteboard::{ImageFormat, PasteboardForm};
use crate::stream;
use crate::stream::State;
use crate::text;
use crate::text_laws;
use vstd::prelude::*;

verus! {

/// The media type that goes with a form.
pub open spec fn mime_of(form: PasteboardForm) -> Seq<char> {
    match form {
        PasteboardForm::Text => "text/plain; charset=utf-8"@,
        PasteboardForm::Image(ImageFormat::Png) => "image/png"@,
        PasteboardForm::Image(ImageFormat::Jpeg) => "image/jpeg"@,
        PasteboardForm::Image(ImageFormat::Tiff) => "image/tiff"@,
    }
}

/// A content is made of exactly the bytes given, with the kind and media type given, and
/// carries the fingerprint of just these.
pub proof fn law_content_is_kept(kind: ClipboardKind, mime: Seq<char>, bytes: Seq<u8>)
    ensures
        ({
            let item = pasteboard::item_with(kind, mime, bytes);
            &&& item.kind == kind
            &&& item.mime == mime
            &&& item.bytes == bytes
            &&& item.hash == clipboard::fingerprint_text(clipboard::kind_text(kind), mime, bytes)
        }),
{
}

/// Different contents of the pasteboard are read as different contents.
pub proof fn law_contents_read_differ(
    form: PasteboardForm,
    bytes: Seq<u8>,
    other_form: PasteboardForm,
    other: Seq<u8>,
)
    requires
        exchange_laws::content_read(form, bytes) == exchange_laws::content_read(other_form, other),
    ensures
        form == other_form,
        bytes == other,
{
    reveal_strlit("image/png");
    reveal_strlit("image/jpeg");
    reveal_strlit("image/tiff");
    assert("image/jpeg"@[6] == 'j' && "image/tiff"@[6] == 't' && "image/png"@[6] == 'p');
    law_content_is_kept(
        ClipboardKind::Text,
        "text/plain; charset=utf-8"@,
        bytes,
    );
}

/// What was copied is what arrives: the bytes that are read from the pasteboard of one side, in
/// any form, are the bytes that the other side gets, all of them and no others, with the kind
/// and the media type of that form. This holds of a frame and of a stream.
pub proof fn law_copied_bytes_arrive(form: PasteboardForm, bytes: Seq<u8>, rest: Seq<u8>)
    requires
        bytes.len() <= usize::MAX,
    ensures
        ({
            let sent = frame::frame_of(exchange_laws::content_read(form, bytes));
            &&& frame::decoded(sent) matches Ok(item) && {
                &&& item.bytes == bytes
                &&& item.kind == if form is Text {
                    ClipboardKind::Text
                } else {
                    ClipboardKind::Image
                }
                &&& item.mime == mime_of(form)
                &&& pasteboard::form_to_write(item) == Ok::<PasteboardForm, Seq<char>>(form)
            }
            &&& stream::read_from(State::Start, sent + rest).1 == rest
            &&& stream::read_from(State::Start, sent + rest).0 matches Ok(Some(item)) && {
                &&& item.bytes == bytes
                &&& item.mime == mime_of(form)
                &&& pasteboard::form_to_write(item) == Ok::<PasteboardForm, Seq<char>>(form)
            }
        }),
{
    exchange_laws::law_pasteboard_content_arrives(form, bytes, rest);
}

/// Whether a description names a PNG image.
pub open spec fn names_png(info: Seq<char>) -> bool {
    text::has_part(info, "PNGf"@) || text::has_part(info, "PNG picture"@)
}

/// Whether a description names a form of text.
pub open spec fn names_text(info: Seq<char>) -> bool {
    ||| text::has_part(info, "utf8"@)
    ||| text::has_part(info, "ut16"@)
    ||| text::has_part(info, "TEXT"@)
    ||| text::has_part(info, "string"@)
}

/// The best form is read, whatever else the description holds: PNG wherever it is named, JPEG
/// where it is named and PNG is not, TIFF where it is named and neither of these is. Text is
/// read only where no image is named, and nothing where neither is.
pub proof fn law_best_form_is_read(info: Seq<char>)
    ensures
        ({
            let form = pasteboard::form_described(info);
            let png = names_png(info);
            let jpeg = text::has_part(info, "JPEG"@);
            let tiff = text::has_part(info, "TIFF"@);
            let plain = names_text(info);
            &&& png ==> form == Some(PasteboardForm::Image(ImageFormat::Png))
            &&& jpeg && !png ==> form == Some(PasteboardForm::Image(ImageFormat::Jpeg))
            &&& tiff && !jpeg && !png ==> form == Some(PasteboardForm::Image(ImageFormat::Tiff))
            &&& plain && !tiff && !jpeg && !png ==> form == Some(PasteboardForm::Text)
            &&& !plain && !tiff && !jpeg && !png ==> form is None
            &&& form == Some(PasteboardForm::Text) ==> !png && !jpeg && !tiff
        }),
{
    reveal_strlit("JPEG");
    reveal_strlit("JPEG picture");
    reveal_strlit("TIFF");
    reveal_strlit("TIFF picture");
    assert("JPEG picture"@.subrange(0, 4) =~= "JPEG"@);
    assert(text::is_part_at("JPEG picture"@, "JPEG"@, 0));
    assert("TIFF picture"@.subrange(0, 4) =~= "TIFF"@);
    assert(text::is_part_at("TIFF picture"@, "TIFF"@, 0));
    if text::has_part(info, "JPEG picture"@) {
        text_laws::law_part_of_part(info, "JPEG picture"@, "JPEG"@);
    }
    if text::has_part(info, "TIFF picture"@) {
        text_laws::law_part_of_part(info, "TIFF picture"@, "TIFF"@);
    }
}

/// A PNG image is read wherever it stands in a description.
pub proof fn law_png_goes_first(before: Seq<char>, after: Seq<char>)
    ensures
        pasteboard::form_described(before + "PNGf"@ + after) == Some(
            PasteboardForm::Image(ImageFormat::Png),
        ),
        pasteboard::form_described(before + "PNG picture"@ + after) == Some(
            PasteboardForm::Image(ImageFormat::Png),
        ),
{
    text_laws::law_part_of_text(before, "PNGf"@, after);
    text_laws::law_part_of_text(before, "PNG picture"@, after);
    law_best_form_is_read(before + "PNGf"@ + after);
    law_best_form_is_read(before + "PNG picture"@ + after);
}

/// What arrived is written in the form that its kind and media type name: text as text, and an
/// image in the one of the three formats that it is in. Any other image is refused by name.
pub proof fn law_form_to_write(item: Item)
    ensures
        ({
            let form = pasteboard::form_to_write(item);
            &&& item.kind == ClipboardKind::Text ==> form == Ok::<PasteboardForm, Seq<char>>(
                PasteboardForm::Text,
            )
            &&& form matches Ok(form) ==> {
                &&& form is Text <==> item.kind == ClipboardKind::Text
                &&& form is Image ==> item.mime == mime_of(form)
            }
            &&& form matches Err(message) ==> {
                &&& item.kind == ClipboardKind::Image
                &&& item.mime != "image/png"@ && item.mime != "image/jpeg"@ && item.mime
                    != "image/tiff"@
                &&& message == "unsupported image MIME type: "@ + item.mime
            }
        }),
{
}

/// The four-letter class of a format.
pub open spec fn class_named(format: ImageFormat) -> Seq<char> {
    match format {
        ImageFormat::Png => "PNGf"@,
        ImageFormat::Jpeg => "JPEG"@,
        ImageFormat::Tiff => "TIFF"@,
    }
}

/// A class stands between guillemets, after the word that says that it is one, as it is.
pub proof fn law_class_between_guillemets(code: Seq<char>)
    ensures
        ({
            let s = pasteboard::class_expr(code);
            &&& s.len() == code.len() + 8
            &&& s[0] == '\u{ab}'
            &&& s.subrange(1, 7) == "class "@
            &&& s.subrange(7, s.len() - 1) == code
            &&& s.last() == '\u{bb}'
        }),
{
    reveal_strlit("\u{ab}class ");
    reveal_strlit("\u{bb}");
    reveal_strlit("class ");
    let s = pasteboard::class_expr(code);
    assert(s.subrange(1, 7) =~= "class "@);
    assert(s.subrange(7, s.len() - 1) =~= code);
}

/// An image is read and written as what it is: both scripts name the class of its own format.
pub proof fn law_scripts_name_the_format(format: ImageFormat, path: Seq<char>)
    ensures
        ({
            let class = "\u{ab}class "@ + class_named(format) + "\u{bb}"@;
            let reads = pasteboard::image_read_lines(format, path);
            let writes = pasteboard::image_write_lines(format, path);
            &&& reads[0] == "set rawData to the clipboard as "@ + class
            &&& writes[1] == "set imageData to read inFile as "@ + class
        }),
{
}

/// The classes of two formats differ.
proof fn lemma_classes_differ(format: ImageFormat, other: ImageFormat)
    requires
        format != other,
    ensures
        class_named(format) != class_named(other),
{
    reveal_strlit("PNGf");
    reveal_strlit("JPEG");
    reveal_strlit("TIFF");
    assert("PNGf"@[0] == 'P' && "JPEG"@[0] == 'J' && "TIFF"@[0] == 'T');
}

/// A line tells the class that it ends with.
proof fn lemma_line_tells_class(before: Seq<char>, code: Seq<char>, other: Seq<char>)
    requires
        before + pasteboard::class_expr(code) == before + pasteboard::class_expr(other),
    ensures
        code == other,
{
    let a = pasteboard::class_expr(code);
    let b = pasteboard::class_expr(other);
    let n = before.len() as int;
    assert((before + a).skip(n) =~= a);
    assert((before + b).skip(n) =~= b);
    law_class_between_guillemets(code);
    law_class_between_guillemets(other);
}

/// The scripts for two formats are never the same, whatever the files: the line that names the
/// class differs, both in reading and in writing.
pub proof fn law_scripts_tell_formats_apart(
    format: ImageFormat,
    path: Seq<char>,
    other: ImageFormat,
    other_path: Seq<char>,
)
    requires
        format != other,
    ensures
        pasteboard::image_read_lines(format, path)[0] != pasteboard::image_read_lines(
            other,
            other_path,
        )[0],
        pasteboard::image_write_lines(format, path)[1] != pasteboard::image_write_lines(
            other,
            other_path,
        )[1],
{
    let x = "set rawData to the clipboard as "@;
    let y = "set imageData to read inFile as "@;
    lemma_classes_differ(format, other);
    if x + pasteboard::class_expr(class_named(format)) == x + pasteboard::class_expr(
        class_named(other),
    ) {
        lemma_line_tells_class(x, class_named(format), class_named(other));
    }
    if y + pasteboard::class_expr(class_named(format)) == y + pasteboard::class_expr(
        class_named(other),
    ) {
        lemma_line_tells_class(y, class_named(format), class_named(other));
    }
}

/// The image goes through the file at the given path: the reading script names it, opens it
/// afresh, empties it, writes the image to it and closes it, and the writing script names it,
/// reads it and puts what it read on the pasteboard.
pub proof fn law_scripts_use_the_file(format: ImageFormat, path: Seq<char>)
    ensures
        ({
            let file = "POSIX file \""@ + path + "\""@;
            let reads = pasteboard::image_read_lines(format, path);
            let writes = pasteboard::image_write_lines(format, path);
            &&& reads.len() == 6
            &&& reads[1] == "set outFile to "@ + file
            &&& reads[2] == "set openedFile to open for access outFile with write permission"@
            &&& reads[3] == "set eof openedFile to 0"@
            &&& reads[4] == "write rawData to openedFile"@
            &&& reads[5] == "close access openedFile"@
            &&& writes.len() == 3
            &&& writes[0] == "set inFile to "@ + file
            &&& writes[2] == "set the clipboard to imageData"@
        }),
{
}

/// A format and its media type belong together: the media type of each is its own, and an
/// image with it is written in that format.
pub proof fn law_format_has_its_media_type(format: ImageFormat, bytes: Seq<u8>)
    ensures
        pasteboard::image_mime(format) == mime_of(PasteboardForm::Image(format)),
        pasteboard::class_code(format) == class_named(format),
        pasteboard::form_to_write(
            pasteboard::item_with(ClipboardKind::Image, mime_of(PasteboardForm::Image(format)), bytes),
        ) == Ok::<PasteboardForm, Seq<char>>(PasteboardForm::Image(format)),
        pasteboard::file_extension(format) == match format {
            ImageFormat::Png => "png"@,
            ImageFormat::Jpeg => "jpg"@,
            ImageFormat::Tiff => "tiff"@,
        },
{
    reveal_strlit("image/png");
    reveal_strlit("image/jpeg");
    reveal_strlit("image/tiff");
    assert("image/jpeg"@[6] == 'j' && "image/tiff"@[6] == 't' && "image/png"@[6] == 'p');
}

/// Each line of a script is handed over once, in order, as it is, after an `-e` of its own.
pub proof fn law_script_is_handed_over(lines: Seq<Seq<char>>, i: int)
    requires
        0 <= i < lines.len(),
    ensures
        pasteboard::script_args(lines).len() == 2 * lines.len(),
        pasteboard::script_args(lines)[2 * i] == "-e"@,
        pasteboard::script_args(lines)[2 * i + 1] == lines[i],
{
}

/// A description of the pasteboard is what the program wrote, and where the program failed
/// there is none: the message then holds what it reported, without the white space around it.
pub proof fn law_description(
    stdout: Seq<char>,
    before: Seq<char>,
    report: Seq<char>,
    after: Seq<char>,
)
    requires
        text_laws::is_blank(before),
        text_laws::is_trimmed(report),
        text_laws::is_blank(after),
    ensures
        pasteboard::info_result(true, stdout, before + report + after) == Ok::<
            Seq<char>,
            Seq<char>,
        >(stdout),
        pasteboard::info_result(false, stdout, before + report + after) == Err::<
            Seq<char>,
            Seq<char>,
        >("clipboard info failed: "@ + report),
{
    text_laws::law_trim_takes_off_what_was_put_around(before, report, after);
}

/// Digits that stand before a sign that is none are told by what stands there.
proof fn lemma_digits_before_sign(a: Seq<char>, x: Seq<char>, b: Seq<char>, y: Seq<char>, c: char)
    requires
        number_laws::are_digits(a),
        number_laws::are_digits(b),
        !('0' <= c <= '9'),
        a + seq![c] + x == b + seq![c] + y,
    ensures
        a == b,
        x == y,
{
    let s = a + seq![c] + x;
    assert(s == b + seq![c] + y);
    assert(s[a.len() as int] == c);
    assert(s[b.len() as int] == c);
    if a.len() < b.len() {
        assert(s[a.len() as int] == b[a.len() as int]);
    }
    if b.len() < a.len() {
        assert(s[b.len() as int] == a[b.len() as int]);
    }
    assert(a =~= s.take(a.len() as int));
    assert(b =~= s.take(a.len() as int));
    assert(x =~= s.skip(a.len() as int + 1));
    assert(y =~= s.skip(a.len() as int + 1));
}

/// Temporary files do not get in each other's way: names that are the same were made of the
/// same process, time and extension. Each name begins with the program's and ends with a dot
/// and the extension.
pub proof fn law_temp_names_differ(
    pid: nat,
    nanos: nat,
    extension: Seq<char>,
    other_pid: nat,
    other_nanos: nat,
    other: Seq<char>,
)
    ensures
        pasteboard::temp_name(pid, nanos, extension) == pasteboard::temp_name(
            other_pid,
            other_nanos,
            other,
        ) ==> pid == other_pid && nanos == other_nanos && extension == other,
        pasteboard::temp_name(pid, nanos, extension).take(5) == "zync-"@,
        ({
            let s = pasteboard::temp_name(pid, nanos, extension);
            s.skip(s.len() - extension.len() - 1) == seq!['.'] + extension
        }),
{
    reveal_strlit("zync-");
    reveal_strlit("-");
    reveal_strlit(".");
    let p = number::decimal_text(pid);
    let n = number::decimal_text(nanos);
    let q = number::decimal_text(other_pid);
    let m = number::decimal_text(other_nanos);
    let s = pasteboard::temp_name(pid, nanos, extension);
    let t = pasteboard::temp_name(other_pid, other_nanos, other);
    number_laws::law_decimal_form(pid);
    number_laws::law_decimal_form(nanos);
    number_laws::law_decimal_form(other_pid);
    number_laws::law_decimal_form(other_nanos);
    let x = n + seq!['.'] + extension;
    let y = m + seq!['.'] + other;
    assert(s =~= "zync-"@ + (p + seq!['-'] + x));
    assert(t =~= "zync-"@ + (q + seq!['-'] + y));
    assert(s.take(5) =~= "zync-"@);
    assert(s.skip(s.len() - extension.len() - 1) =~= seq!['.'] + extension);
    if s == t {
        assert(s.skip(5) =~= p + seq!['-'] + x);
        assert(t.skip(5) =~= q + seq!['-'] + y);
        lemma_digits_before_sign(p, x, q, y, '-');
        lemma_digits_before_sign(n, extension, m, other, '.');
        number_laws::law_decimal_tells_numbers_apart(pid, other_pid);
        number_laws::law_decimal_tells_numbers_apart(nanos, other_nanos);
    }
}

} // verus!
