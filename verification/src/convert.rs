//! The media converter: the commands that turn a source file into an image a
//! browser can show, and what becomes of their outcome. Running a command is
//! the caller's part.

use crate::category::Type;
use crate::error::{Error, ErrorView};
use crate::text::texts;
use vstd::prelude::*;

verus! {

/// The content type of every converted image.
pub const JPEG: &'static str = "image/jpeg";

/// A command to run: the program and its arguments, in order.
#[derive(Debug, Clone, PartialEq, Eq)]
pub struct Invocation {
    pub program: String,
    pub args: Vec<String>,
}

/// The mathematical value of an `Invocation`.
pub struct InvocationView {
    pub program: Seq<char>,
    pub args: Seq<Seq<char>>,
}

impl View for Invocation {
    type V = InvocationView;

    open spec fn view(&self) -> InvocationView {
        InvocationView { program: self.program@, args: texts(self.args@) }
    }
}

/// A wish for a preview of the file at `source`, which is of the media type
/// `target`.
#[derive(Debug, Clone, PartialEq, Eq)]
pub struct ConversionRequest {
    pub source: String,
    pub target: Type,
}

/// The command that re-encodes an image as JPEG on its standard output.
pub open spec fn reencode(source: Seq<char>) -> InvocationView {
    InvocationView { program: "convert"@, args: seq![source, "JPG:-"@] }
}

/// The command that writes a thumbnail of an image as JPEG on its standard
/// output: upright, and 200 pixels high.
pub open spec fn image_thumbnail(source: Seq<char>) -> InvocationView {
    InvocationView {
        program: "convert"@,
        args: seq![source, "-auto-orient"@, "-thumbnail"@, "x200"@, "JPG:-"@],
    }
}

/// The command that writes one frame of a video, taken one second in and
/// scaled down to fit 320 by 320 pixels, as an image on its standard output.
pub open spec fn video_thumbnail(source: Seq<char>) -> InvocationView {
    InvocationView {
        program: "ffmpeg"@,
        args: seq![
            "-i"@,
            source,
            "-ss"@,
            "00:00:01.00"@,
            "-vf"@,
            "scale=320:320:force_original_aspect_ratio=decrease"@,
            "-vframes"@,
            "1"@,
            "-f"@,
            "image2pipe"@,
            "-"@,
        ],
    }
}

/// The command for a thumbnail of a source of the given media type, or the
/// error that says that this type has none.
pub open spec fn thumbnail_command(source: Seq<char>, target: Type) -> Result<
    InvocationView,
    ErrorView,
> {
    match target {
        Type::Image => Ok(image_thumbnail(source)),
        Type::Video => Ok(video_thumbnail(source)),
        Type::Other => Err(ErrorView::InvalidType(Type::Other)),
    }
}

/// Whether `r` has the value `expected`.
pub open spec fn gives(
    r: Result<Invocation, Error>,
    expected: Result<InvocationView, ErrorView>,
) -> bool {
    match expected {
        Ok(command) => r matches Ok(given) && given@ == command,
        Err(error) => r matches Err(given) && given@ == error,
    }
}

/// The command of the given program and arguments.
fn command(program: &str, args: Vec<String>) -> (r: Invocation)
    ensures
        r@.program == program@,
        r@.args == texts(args@),
{
    Invocation { program: String::from_str(program), args }
}

/// The command that re-encodes the image at `path`.
pub fn convert_image(path: &str) -> (r: Invocation)
    ensures
        r@ == reencode(path@),
{
    let mut args: Vec<String> = Vec::new();
    args.push(String::from_str(path));
    args.push(String::from_str("JPG:-"));
    assert(texts(args@) =~= reencode(path@).args);
    command("convert", args)
}

/// The command that makes a thumbnail of the image at `path`.
pub fn thumbnail_image(path: &str) -> (r: Invocation)
    ensures
        r@ == image_thumbnail(path@),
{
    let mut args: Vec<String> = Vec::new();
    args.push(String::from_str(path));
    args.push(String::from_str("-auto-orient"));
    args.push(String::from_str("-thumbnail"));
    args.push(String::from_str("x200"));
    args.push(String::from_str("JPG:-"));
    assert(texts(args@) =~= image_thumbnail(path@).args);
    command("convert", args)
}

/// The command that makes a thumbnail of the video at `path`.
pub fn thumbnail_video(path: &str) -> (r: Invocation)
    ensures
        r@ == video_thumbnail(path@),
{
    let mut args: Vec<String> = Vec::new();
    args.push(String::from_str("-i"));
    args.push(String::from_str(path));
    args.push(String::from_str("-ss"));
    args.push(String::from_str("00:00:01.00"));
    args.push(String::from_str("-vf"));
    args.push(String::from_str("scale=320:320:force_original_aspect_ratio=decrease"));
    args.push(String::from_str("-vframes"));
    args.push(String::from_str("1"));
    args.push(String::from_str("-f"));
    args.push(String::from_str("image2pipe"));
    args.push(String::from_str("-"));
    assert(texts(args@) =~= video_thumbnail(path@).args);
    command("ffmpeg", args)
}

/// The command that answers a request for a thumbnail: by the media type of
/// the source, and an error for a type that has no thumbnails.
pub fn thumbnail_for(request: &ConversionRequest) -> (r: Result<Invocation, Error>)
    ensures
        gives(r, thumbnail_command(request.source@, request.target)),
{
    match request.target {
        Type::Image => Ok(thumbnail_image(request.source.as_str())),
        Type::Video => Ok(thumbnail_video(request.source.as_str())),
        Type::Other => Err(Error::InvalidType(Type::Other)),
    }
}

/// What became of starting a conversion process.
#[derive(Debug, Clone, PartialEq, Eq)]
pub enum Launch {
    /// The process could not be started; the text says why.
    Refused(String),
    /// The process runs, but its output cannot be read.
    NoStdout,
    /// The process runs and its output is there to be forwarded.
    Piped,
}

/// The answer to a streamed conversion: the content type under which the
/// output of the process is forwarded as it comes, or the error where there
/// is no output to forward. How the process ends is not waited for.
pub fn streamed(launch: Launch) -> (r: Result<&'static str, Error>)
    ensures
        launch matches Launch::Refused(why) ==> (r matches Err(e) && e@ == ErrorView::Spawn(why@)),
        launch is NoStdout ==> (r matches Err(e) && e@ == ErrorView::NoStdout),
        launch is Piped ==> (r matches Ok(content_type) && content_type@ == JPEG@),
{
    match launch {
        Launch::Refused(why) => Err(Error::Spawn(why)),
        Launch::NoStdout => Err(Error::NoStdout),
        Launch::Piped => Ok(JPEG),
    }
}

/// The answer to a conversion that was waited for: what the process wrote
/// where it ended well, and otherwise the error that keeps what it wrote.
pub fn buffered(succeeded: bool, output: Vec<u8>) -> (r: Result<Vec<u8>, Error>)
    ensures
        succeeded ==> (r matches Ok(body) && body@ == output@),
        !succeeded ==> (r matches Err(e) && e@ == ErrorView::Failed(output@)),
{
    if succeeded {
        Ok(output)
    } else {
        Err(Error::Failed(output))
    }
}

} // verus!
