//! The command line: which arguments make a render job, and which error each
//! malformed one gives.

use crate::complex::{complex_of, parse_complex_number, ComplexLiteral};
use crate::decimal::{decimal_u32, parse_u32};
use crate::fractal::FractalType;
use crate::literal::{is_positive_number, is_signed_number, positive_number, signed_number};
use crate::resolution::{parse_resolution, resolution_of};
use vstd::prelude::*;
use vstd::string::StringExecFns;

verus! {

/// A fractal type in contracts: a Julia set with the two parts of its
/// parameter as they were written.
pub enum FractalTypeView {
    Mandelbrot,
    Julia(Seq<char>, Seq<char>),
}

impl View for FractalType<ComplexLiteral> {
    type V = FractalTypeView;

    open spec fn view(&self) -> FractalTypeView {
        match self {
            FractalType::Mandelbrot => FractalTypeView::Mandelbrot,
            FractalType::Julia(c) => FractalTypeView::Julia(c.re@, c.im@),
        }
    }
}

/// The argument that an error is about.
#[derive(Clone, Copy, Debug, PartialEq, Eq, Structural)]
pub enum Argument {
    Resolution,
    CaptureSize,
    MaxIter,
    Scale,
    FractalType,
    ComplexNumber,
}

/// Why a command line gives no render job.
#[derive(Clone, Copy, Debug, PartialEq, Eq, Structural)]
pub enum CliError {
    /// The number of arguments fits neither form.
    Usage,
    /// An argument is not in its grammar.
    Parse(Argument),
    /// An argument is well written and not greater than zero.
    Configuration(Argument),
}

/// What one run renders, as read from the command line. The scale is kept as
/// written: it is a signed decimal number.
#[derive(Debug, PartialEq, Eq)]
pub struct RenderJob {
    pub output_file: String,
    pub width: u32,
    pub height: u32,
    pub capture_width: u32,
    pub capture_height: u32,
    pub max_iter: u32,
    pub scale: String,
    pub fractal_type: FractalType<ComplexLiteral>,
}

impl RenderJob {
    /// The job is well written: no size and no bound is zero, the scale is a
    /// decimal number greater than zero, and the parts of a Julia parameter
    /// are signed decimal numbers.
    pub open spec fn wf(&self) -> bool {
        &&& self.width > 0
        &&& self.height > 0
        &&& self.capture_width > 0
        &&& self.capture_height > 0
        &&& self.max_iter > 0
        &&& positive_number(self.scale@)
        &&& match self.fractal_type {
            FractalType::Mandelbrot => true,
            FractalType::Julia(c) => signed_number(c.re@) && signed_number(c.im@),
        }
    }
}

/// A render job in contracts.
pub struct RenderJobView {
    pub output_file: Seq<char>,
    pub width: u32,
    pub height: u32,
    pub capture_width: u32,
    pub capture_height: u32,
    pub max_iter: u32,
    pub scale: Seq<char>,
    pub fractal_type: FractalTypeView,
}

impl View for RenderJob {
    type V = RenderJobView;

    open spec fn view(&self) -> RenderJobView {
        RenderJobView {
            output_file: self.output_file@,
            width: self.width,
            height: self.height,
            capture_width: self.capture_width,
            capture_height: self.capture_height,
            max_iter: self.max_iter,
            scale: self.scale@,
            fractal_type: self.fractal_type@,
        }
    }
}

/// The arguments as character sequences.
pub open spec fn texts(args: Seq<String>) -> Seq<Seq<char>> {
    Seq::new(args.len(), |i: int| args[i]@)
}

/// The fractal type that a name selects, with the parameter that a Julia set
/// takes.
pub open spec fn named_fractal(kind: Seq<char>, parameter: Seq<char>) -> Result<
    FractalTypeView,
    CliError,
> {
    if kind == "mandelbrot"@ {
        Ok(FractalTypeView::Mandelbrot)
    } else if kind == "julia"@ {
        match complex_of(parameter) {
            Some((re, im)) => Ok(FractalTypeView::Julia(re, im)),
            None => Err(CliError::Parse(Argument::ComplexNumber)),
        }
    } else {
        Err(CliError::Parse(Argument::FractalType))
    }
}

/// The fractal type that the arguments select: the Mandelbrot set in the
/// short form, else what the sixth argument names, with the seventh as the
/// parameter of a Julia set.
pub open spec fn fractal_of(args: Seq<Seq<char>>) -> Result<FractalTypeView, CliError> {
    if args.len() == 5 {
        Ok(FractalTypeView::Mandelbrot)
    } else {
        named_fractal(args[5], args[6])
    }
}

/// The first argument that is not in its grammar, if there is one.
pub open spec fn parse_error_of(args: Seq<Seq<char>>) -> Option<Argument> {
    if resolution_of(args[1]) is None {
        Some(Argument::Resolution)
    } else if resolution_of(args[2]) is None {
        Some(Argument::CaptureSize)
    } else if decimal_u32(args[3]) is None {
        Some(Argument::MaxIter)
    } else if !signed_number(args[4]) {
        Some(Argument::Scale)
    } else {
        match fractal_of(args) {
            Err(CliError::Parse(a)) => Some(a),
            _ => None,
        }
    }
}

/// The first argument that is not greater than zero, if there is one: a size
/// with a side of zero, a bound of zero, or a scale that is zero or negative.
pub open spec fn non_positive_argument_of(args: Seq<Seq<char>>) -> Option<Argument> {
    let size = resolution_of(args[1])->0;
    let capture = resolution_of(args[2])->0;
    if size.0 == 0 || size.1 == 0 {
        Some(Argument::Resolution)
    } else if capture.0 == 0 || capture.1 == 0 {
        Some(Argument::CaptureSize)
    } else if decimal_u32(args[3])->0 == 0 {
        Some(Argument::MaxIter)
    } else if !positive_number(args[4]) {
        Some(Argument::Scale)
    } else {
        None
    }
}

/// What the arguments after the program's name ask for.
///
/// Five arguments are the output file, the output resolution, the capture
/// resolution, the iteration bound and the scale; seven add the fractal type
/// and the Julia parameter. Any other number is a usage error. Then the first
/// malformed argument is reported, and after that the first one that is not
/// greater than zero.
pub open spec fn job_of(args: Seq<Seq<char>>) -> Result<RenderJobView, CliError> {
    if args.len() != 5 && args.len() != 7 {
        Err(CliError::Usage)
    } else if parse_error_of(args) is Some {
        Err(CliError::Parse(parse_error_of(args)->0))
    } else if non_positive_argument_of(args) is Some {
        Err(CliError::Configuration(non_positive_argument_of(args)->0))
    } else {
        Ok(
            RenderJobView {
                output_file: args[0],
                width: (resolution_of(args[1])->0).0,
                height: (resolution_of(args[1])->0).1,
                capture_width: (resolution_of(args[2])->0).0,
                capture_height: (resolution_of(args[2])->0).1,
                max_iter: decimal_u32(args[3])->0,
                scale: args[4],
                fractal_type: fractal_of(args)->Ok_0,
            },
        )
    }
}

/// Whether two texts are the same, the second being ASCII.
fn same_text(s: &str, word: &str) -> (r: bool)
    requires
        word.is_ascii(),
    ensures
        r == (s@ == word@),
{
    if !s.is_ascii() {
        return false;
    }
    let n: usize = s.unicode_len();
    if n != word.unicode_len() {
        return false;
    }
    let mut i: usize = 0;
    while i < n
        invariant
            s.is_ascii(),
            word.is_ascii(),
            n == s@.len(),
            n == word@.len(),
            i <= n,
            forall|j: int| 0 <= j < i ==> s@[j] == word@[j],
        decreases n - i,
    {
        if s.get_ascii(i) != word.get_ascii(i) {
            assert(s@[i as int] != word@[i as int]);
            return false;
        }
        i = i + 1;
    }
    assert(s@ =~= word@);
    true
}

/// Reads a fractal type from its name and the parameter that follows it.
pub fn parse_fractal_type(kind: &str, parameter: &str) -> (r: Result<
    FractalType<ComplexLiteral>,
    CliError,
>)
    ensures
        match r {
            Ok(f) => named_fractal(kind@, parameter@) == Ok::<FractalTypeView, CliError>(f@),
            Err(e) => named_fractal(kind@, parameter@) == Err::<FractalTypeView, CliError>(e),
        },
{
    proof {
        reveal_strlit("mandelbrot");
        reveal_strlit("julia");
    }
    if same_text(kind, "mandelbrot") {
        Ok(FractalType::Mandelbrot)
    } else if same_text(kind, "julia") {
        match parse_complex_number(parameter) {
            Some(c) => Ok(FractalType::Julia(c)),
            None => Err(CliError::Parse(Argument::ComplexNumber)),
        }
    } else {
        Err(CliError::Parse(Argument::FractalType))
    }
}

/// Reads the arguments that follow the program's name.
pub fn parse_args(args: &Vec<String>) -> (r: Result<RenderJob, CliError>)
    ensures
        match r {
            Ok(job) => job_of(texts(args@)) == Ok::<RenderJobView, CliError>(job@),
            Err(e) => job_of(texts(args@)) == Err::<RenderJobView, CliError>(e),
        },
        r matches Ok(job) ==> job.wf(),
{
    let ghost t = texts(args@);
    if args.len() != 5 && args.len() != 7 {
        return Err(CliError::Usage);
    }
    assert(t[0] == args@[0]@ && t[1] == args@[1]@ && t[2] == args@[2]@ && t[3] == args@[3]@
        && t[4] == args@[4]@);
    let (width, height) = match parse_resolution(args[1].as_str()) {
        Some(size) => size,
        None => {
            return Err(CliError::Parse(Argument::Resolution));
        },
    };
    let (capture_width, capture_height) = match parse_resolution(args[2].as_str()) {
        Some(size) => size,
        None => {
            return Err(CliError::Parse(Argument::CaptureSize));
        },
    };
    let max_iter = match parse_u32(args[3].as_str()) {
        Some(n) => n,
        None => {
            return Err(CliError::Parse(Argument::MaxIter));
        },
    };
    if !is_signed_number(args[4].as_str()) {
        return Err(CliError::Parse(Argument::Scale));
    }
    let fractal_type = if args.len() == 5 {
        FractalType::Mandelbrot
    } else {
        assert(t[5] == args@[5]@ && t[6] == args@[6]@);
        match parse_fractal_type(args[5].as_str(), args[6].as_str()) {
            Ok(f) => f,
            Err(e) => {
                return Err(e);
            },
        }
    };
    assert(fractal_of(t) == Ok::<FractalTypeView, CliError>(fractal_type@));
    assert(parse_error_of(t) is None);
    if width == 0 || height == 0 {
        return Err(CliError::Configuration(Argument::Resolution));
    }
    if capture_width == 0 || capture_height == 0 {
        return Err(CliError::Configuration(Argument::CaptureSize));
    }
    if max_iter == 0 {
        return Err(CliError::Configuration(Argument::MaxIter));
    }
    if !is_positive_number(args[4].as_str()) {
        return Err(CliError::Configuration(Argument::Scale));
    }
    Ok(
        RenderJob {
            output_file: args[0].clone(),
            width,
            height,
            capture_width,
            capture_height,
            max_iter,
            scale: args[4].clone(),
            fractal_type,
        },
    )
}

/// How an argument is called in messages.
pub open spec fn argument_name(a: Argument) -> Seq<char> {
    match a {
        Argument::Resolution => "resolution"@,
        Argument::CaptureSize => "capture size"@,
        Argument::MaxIter => "max_iter"@,
        Argument::Scale => "scale"@,
        Argument::FractalType => "fractal type"@,
        Argument::ComplexNumber => "complex number"@,
    }
}

/// The message that an error is reported with. A usage error shows the two
/// forms of the command line; every other error names its argument.
pub open spec fn message_of(e: CliError, program: Seq<char>) -> Seq<char> {
    match e {
        CliError::Usage => "Usage: "@ + program
            + " <output_file> <width>x<height> <capture_width>x<capture_height> <max_iter> <scale> [<fractal_type> <c>]"@,
        CliError::Parse(a) => "Invalid "@ + argument_name(a),
        CliError::Configuration(a) => "Invalid "@ + argument_name(a)
            + ": must be greater than zero"@,
    }
}

impl Argument {
    /// How the argument is called in messages.
    pub fn name(&self) -> (text: &'static str)
        ensures
            text@ == argument_name(*self),
    {
        match self {
            Argument::Resolution => "resolution",
            Argument::CaptureSize => "capture size",
            Argument::MaxIter => "max_iter",
            Argument::Scale => "scale",
            Argument::FractalType => "fractal type",
            Argument::ComplexNumber => "complex number",
        }
    }
}

impl CliError {
    /// The message to report the error with, given the program's name.
    pub fn message(&self, program: &str) -> (text: String)
        ensures
            text@ == message_of(*self, program@),
    {
        match self {
            CliError::Usage => {
                let mut text = String::from_str("Usage: ");
                text.append(program);
                text.append(
                    " <output_file> <width>x<height> <capture_width>x<capture_height> <max_iter> <scale> [<fractal_type> <c>]",
                );
                text
            },
            CliError::Parse(a) => {
                let mut text = String::from_str("Invalid ");
                text.append(a.name());
                text
            },
            CliError::Configuration(a) => {
                let mut text = String::from_str("Invalid ");
                text.append(a.name());
                text.append(": must be greater than zero");
                text
            },
        }
    }

    /// The exit status that the error ends the program with: success for a
    /// usage error, failure for every other.
    pub fn exit_code(&self) -> (code: u8)
        ensures
            code == 0 <==> *self == CliError::Usage,
            code <= 1,
    {
        match self {
            CliError::Usage => 0,
            _ => 1,
        }
    }
}

} // verus!
