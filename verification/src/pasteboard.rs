//! The macOS pasteboard: which form of its content to read or write, and the scripts and
//! arguments of the programs that do it.

use crate::clipboard;
use crate::clipboard::{ClipboardItem, ClipboardKind, Item};
use crate::number;
use crate::process;
use crate::text;
use crate::utf8;
use vstd::prelude::*;

verus! {

/// The media type of text.
pub const TEXT_MIME: &'static str = "text/plain; charset=utf-8";

/// The image formats that can be read from the pasteboard and written to it.
#[derive(Clone, Copy, Debug, PartialEq, Eq, Structural)]
pub enum ImageFormat {
    Png,
    Jpeg,
    Tiff,
}

/// The four-letter class of a format on the pasteboard.
pub open spec fn class_code(format: ImageFormat) -> Seq<char> {
    match format {
        ImageFormat::Png => "PNGf"@,
        ImageFormat::Jpeg => "JPEG"@,
        ImageFormat::Tiff => "TIFF"@,
    }
}

/// The media type of a format.
pub open spec fn image_mime(format: ImageFormat) -> Seq<char> {
    match format {
        ImageFormat::Png => "image/png"@,
        ImageFormat::Jpeg => "image/jpeg"@,
        ImageFormat::Tiff => "image/tiff"@,
    }
}

/// The file name extension of a format.
pub open spec fn file_extension(format: ImageFormat) -> Seq<char> {
    match format {
        ImageFormat::Png => "png"@,
        ImageFormat::Jpeg => "jpg"@,
        ImageFormat::Tiff => "tiff"@,
    }
}

impl ImageFormat {
    /// The four-letter class of this format on the pasteboard.
    pub fn class_code(&self) -> (s: &'static str)
        ensures
            s@ == class_code(*self),
    {
        match self {
            ImageFormat::Png => "PNGf",
            ImageFormat::Jpeg => "JPEG",
            ImageFormat::Tiff => "TIFF",
        }
    }

    /// The media type of this format.
    pub fn mime(&self) -> (s: &'static str)
        ensures
            s@ == image_mime(*self),
    {
        match self {
            ImageFormat::Png => "image/png",
            ImageFormat::Jpeg => "image/jpeg",
            ImageFormat::Tiff => "image/tiff",
        }
    }

    /// The file name extension of this format.
    pub fn extension(&self) -> (s: &'static str)
        ensures
            s@ == file_extension(*self),
    {
        match self {
            ImageFormat::Png => "png",
            ImageFormat::Jpeg => "jpg",
            ImageFormat::Tiff => "tiff",
        }
    }
}

/// The form in which a content is read from the pasteboard or written to it.
#[derive(Clone, Copy, Debug, PartialEq, Eq, Structural)]
pub enum PasteboardForm {
    Text,
    Image(ImageFormat),
}

impl View for PasteboardForm {
    type V = PasteboardForm;

    open spec fn view(&self) -> PasteboardForm {
        *self
    }
}

/// The form to read a pasteboard in, by its description. Images go before text, and PNG
/// before JPEG before TIFF. A pasteboard in none of these forms is not read.
pub open spec fn form_described(info: Seq<char>) -> Option<PasteboardForm> {
    if text::has_part(info, "PNGf"@) || text::has_part(info, "PNG picture"@) {
        Some(PasteboardForm::Image(ImageFormat::Png))
    } else if text::has_part(info, "JPEG"@) || text::has_part(info, "JPEG picture"@) {
        Some(PasteboardForm::Image(ImageFormat::Jpeg))
    } else if text::has_part(info, "TIFF"@) || text::has_part(info, "TIFF picture"@) {
        Some(PasteboardForm::Image(ImageFormat::Tiff))
    } else if text::has_part(info, "utf8"@) || text::has_part(info, "ut16"@) || text::has_part(
        info,
        "TEXT"@,
    ) || text::has_part(info, "string"@) {
        Some(PasteboardForm::Text)
    } else {
        None
    }
}

/// Chooses the form to read the pasteboard in, by its description.
pub fn read_clipboard(info: &str) -> (form: Option<PasteboardForm>)
    ensures
        form == form_described(info@),
{
    let png: [&str; 2] = ["PNGf", "PNG picture"];
    let jpeg: [&str; 2] = ["JPEG", "JPEG picture"];
    let tiff: [&str; 2] = ["TIFF", "TIFF picture"];
    let plain: [&str; 4] = ["utf8", "ut16", "TEXT", "string"];
    proof {
        assert(png@[0]@ == "PNGf"@ && png@[1]@ == "PNG picture"@);
        assert(jpeg@[0]@ == "JPEG"@ && jpeg@[1]@ == "JPEG picture"@);
        assert(tiff@[0]@ == "TIFF"@ && tiff@[1]@ == "TIFF picture"@);
        assert(plain@[0]@ == "utf8"@ && plain@[1]@ == "ut16"@ && plain@[2]@ == "TEXT"@
            && plain@[3]@ == "string"@);
    }
    if text::contains_any(info, &png) {
        Some(PasteboardForm::Image(ImageFormat::Png))
    } else if text::contains_any(info, &jpeg) {
        Some(PasteboardForm::Image(ImageFormat::Jpeg))
    } else if text::contains_any(info, &tiff) {
        Some(PasteboardForm::Image(ImageFormat::Tiff))
    } else if text::contains_any(info, &plain) {
        Some(PasteboardForm::Text)
    } else {
        None
    }
}

/// The description of the pasteboard, or the message that says why there is none.
pub open spec fn info_result(success: bool, stdout: Seq<char>, stderr: Seq<char>) -> Result<
    Seq<char>,
    Seq<char>,
> {
    if success {
        Ok(stdout)
    } else {
        Err("clipboard info failed: "@ + text::without_outer_space(stderr))
    }
}

/// Turns the output of the program that describes the pasteboard into a description.
pub fn clipboard_info(success: bool, stdout: &[u8], stderr: &[u8]) -> (r: Result<String, String>)
    ensures
        text::outcome(r) == info_result(
            success,
            utf8::lossy_text(stdout@),
            utf8::lossy_text(stderr@),
        ),
{
    let stdout = utf8::from_utf8_lossy(stdout);
    let stderr = utf8::from_utf8_lossy(stderr);
    describe_clipboard(success, stdout, stderr.as_str())
}

/// Turns the texts that the program that describes the pasteboard has written into a
/// description.
pub fn describe_clipboard(success: bool, stdout: String, stderr: &str) -> (r: Result<
    String,
    String,
>)
    ensures
        text::outcome(r) == info_result(success, stdout@, stderr@),
{
    if success {
        Ok(stdout)
    } else {
        Err(String::from_str("clipboard info failed: ").concat(text::trim(stderr)))
    }
}

/// The content with the given kind, media type and bytes, and its fingerprint.
pub open spec fn item_with(kind: ClipboardKind, mime: Seq<char>, bytes: Seq<u8>) -> Item {
    Item {
        kind,
        mime,
        bytes,
        hash: clipboard::fingerprint_text(clipboard::kind_text(kind), mime, bytes),
    }
}

/// Makes a content of its bytes.
fn new_item(kind: ClipboardKind, mime: &str, bytes: Vec<u8>) -> (item: ClipboardItem)
    ensures
        item@ == item_with(kind, mime@, bytes@),
{
    let hash = clipboard::fingerprint(kind.as_str(), mime, bytes.as_slice());
    ClipboardItem { kind, mime: String::from_str(mime), bytes, hash }
}

/// Turns the output of the program that pastes text into a content.
pub fn read_text_clipboard(success: bool, status: &str, stdout: Vec<u8>) -> (r: Result<
    ClipboardItem,
    String,
>)
    ensures
        text::outcome(r) == match process::program_result("pbpaste"@, success, status@) {
            Ok(()) => Ok(item_with(ClipboardKind::Text, TEXT_MIME@, stdout@)),
            Err(message) => Err(message),
        },
        r is Ok <==> success,
        r matches Ok(item) ==> item.kind == ClipboardKind::Text && item.bytes@ == stdout@,
{
    match process::check_exit("pbpaste", success, status) {
        Ok(()) => Ok(new_item(ClipboardKind::Text, TEXT_MIME, stdout)),
        Err(message) => Err(message),
    }
}

/// Makes a content of the bytes of an image.
pub fn read_image_clipboard(format: ImageFormat, bytes: Vec<u8>) -> (item: ClipboardItem)
    ensures
        item@ == item_with(ClipboardKind::Image, image_mime(format), bytes@),
        item.kind == ClipboardKind::Image,
        item.bytes@ == bytes@,
{
    new_item(ClipboardKind::Image, format.mime(), bytes)
}

/// The form in which a content is written to the pasteboard, or the message that refuses it.
pub open spec fn form_to_write(item: Item) -> Result<PasteboardForm, Seq<char>> {
    match item.kind {
        ClipboardKind::Text => Ok(PasteboardForm::Text),
        ClipboardKind::Image => if item.mime == image_mime(ImageFormat::Png) {
            Ok(PasteboardForm::Image(ImageFormat::Png))
        } else if item.mime == image_mime(ImageFormat::Jpeg) {
            Ok(PasteboardForm::Image(ImageFormat::Jpeg))
        } else if item.mime == image_mime(ImageFormat::Tiff) {
            Ok(PasteboardForm::Image(ImageFormat::Tiff))
        } else {
            Err("unsupported image MIME type: "@ + item.mime)
        },
    }
}

/// Chooses the form in which to write a content to the pasteboard.
pub fn write_clipboard(item: &ClipboardItem) -> (r: Result<PasteboardForm, String>)
    ensures
        text::outcome(r) == form_to_write(item@),
{
    match item.kind {
        ClipboardKind::Text => Ok(PasteboardForm::Text),
        ClipboardKind::Image => {
            let mime = item.mime.as_str();
            if text::str_eq(mime, "image/png") {
                Ok(PasteboardForm::Image(ImageFormat::Png))
            } else if text::str_eq(mime, "image/jpeg") {
                Ok(PasteboardForm::Image(ImageFormat::Jpeg))
            } else if text::str_eq(mime, "image/tiff") {
                Ok(PasteboardForm::Image(ImageFormat::Tiff))
            } else {
                Err(String::from_str("unsupported image MIME type: ").concat(mime))
            }
        },
    }
}

/// A class in AppleScript: its code between guillemets.
pub open spec fn class_expr(class_code: Seq<char>) -> Seq<char> {
    "\u{ab}class "@ + class_code + "\u{bb}"@
}

/// Writes a class in AppleScript.
pub fn apple_class_expr(class_code: &str) -> (s: String)
    ensures
        s@ == class_expr(class_code@),
{
    String::from_str("\u{ab}class ").concat(class_code).concat("\u{bb}")
}

/// A file in AppleScript.
pub open spec fn file_expr(path: Seq<char>) -> Seq<char> {
    "POSIX file \""@ + path + "\""@
}

/// Writes a file in AppleScript.
fn apple_file_expr(path: &str) -> (s: String)
    ensures
        s@ == file_expr(path@),
{
    String::from_str("POSIX file \"").concat(path).concat("\"")
}

/// The characters of each line.
pub open spec fn line_texts(lines: Seq<String>) -> Seq<Seq<char>> {
    lines.map_values(|line: String| line@)
}

/// The script that writes an image from the pasteboard to a file.
pub open spec fn image_read_lines(format: ImageFormat, path: Seq<char>) -> Seq<Seq<char>> {
    seq![
        "set rawData to the clipboard as "@ + class_expr(class_code(format)),
        "set outFile to "@ + file_expr(path),
        "set openedFile to open for access outFile with write permission"@,
        "set eof openedFile to 0"@,
        "write rawData to openedFile"@,
        "close access openedFile"@,
    ]
}

/// Writes the script that writes an image from the pasteboard to a file.
pub fn image_read_script(format: ImageFormat, path: &str) -> (lines: Vec<String>)
    ensures
        line_texts(lines@) == image_read_lines(format, path@),
{
    let class = apple_class_expr(format.class_code());
    let file = apple_file_expr(path);
    let mut lines: Vec<String> = Vec::new();
    lines.push(String::from_str("set rawData to the clipboard as ").concat(class.as_str()));
    lines.push(String::from_str("set outFile to ").concat(file.as_str()));
    lines.push(
        String::from_str("set openedFile to open for access outFile with write permission"),
    );
    lines.push(String::from_str("set eof openedFile to 0"));
    lines.push(String::from_str("write rawData to openedFile"));
    lines.push(String::from_str("close access openedFile"));
    proof {
        assert(line_texts(lines@) =~= image_read_lines(format, path@));
    }
    lines
}

/// The script that puts the image in a file on the pasteboard.
pub open spec fn image_write_lines(format: ImageFormat, path: Seq<char>) -> Seq<Seq<char>> {
    seq![
        "set inFile to "@ + file_expr(path),
        "set imageData to read inFile as "@ + class_expr(class_code(format)),
        "set the clipboard to imageData"@,
    ]
}

/// Writes the script that puts the image in a file on the pasteboard.
pub fn image_write_script(format: ImageFormat, path: &str) -> (lines: Vec<String>)
    ensures
        line_texts(lines@) == image_write_lines(format, path@),
{
    let class = apple_class_expr(format.class_code());
    let file = apple_file_expr(path);
    let mut lines: Vec<String> = Vec::new();
    lines.push(String::from_str("set inFile to ").concat(file.as_str()));
    lines.push(String::from_str("set imageData to read inFile as ").concat(class.as_str()));
    lines.push(String::from_str("set the clipboard to imageData"));
    proof {
        assert(line_texts(lines@) =~= image_write_lines(format, path@));
    }
    lines
}

/// The arguments that hand a script to `osascript`: each line after an `-e` of its own.
pub open spec fn script_args(lines: Seq<Seq<char>>) -> Seq<Seq<char>> {
    Seq::new(
        2 * lines.len(),
        |i: int|
            if i % 2 == 0 {
                "-e"@
            } else {
                lines[i / 2]
            },
    )
}

/// Makes the arguments that hand a script to `osascript`.
pub fn osascript_args(lines: &[String]) -> (args: Vec<String>)
    ensures
        line_texts(args@) == script_args(line_texts(lines@)),
{
    let mut args: Vec<String> = Vec::new();
    let n = lines.len();
    let mut i: usize = 0;
    while i < n
        invariant
            n == lines@.len(),
            i <= n,
            args@.len() == 2 * i,
            forall|k: int|
                0 <= k < 2 * i ==> (#[trigger] args@[k])@ == script_args(line_texts(lines@))[k],
        decreases n - i,
    {
        args.push(String::from_str("-e"));
        args.push(lines[i].clone());
        i += 1;
    }
    proof {
        assert(line_texts(args@) =~= script_args(line_texts(lines@)));
    }
    args
}

/// The name of a temporary file.
pub open spec fn temp_name(pid: nat, nanos: nat, extension: Seq<char>) -> Seq<char> {
    "zync-"@ + number::decimal_text(pid) + "-"@ + number::decimal_text(nanos) + "."@ + extension
}

/// Makes the name of a temporary file of the process id, the time in nanoseconds and an
/// extension.
pub fn temp_file_name(pid: u32, nanos: u128, extension: &str) -> (s: String)
    ensures
        s@ == temp_name(pid as nat, nanos as nat, extension@),
{
    let pid = number::decimal(pid as u128);
    let nanos = number::decimal(nanos);
    String::from_str("zync-").concat(pid.as_str()).concat("-").concat(nanos.as_str()).concat(
        ".",
    ).concat(extension)
}

} // verus!
