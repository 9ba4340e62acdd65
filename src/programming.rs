use vstd::prelude::*;
use vstd::string::StringExecFns;
use crate::patterns::{pattern_found, regex_finds, ERROR_PATTERN, SUCCESS_PATTERN};
use crate::text::{decode_lossy, lossy_text};

verus! {

/// Where the programming images live, as a path prefix.
pub const IMAGE_DIR: &'static str = "sofs/";

/// The image with colour bars.
pub const COLOUR_BARS_IMAGE: &'static str = "tpg_colour_bars.sof";

/// The image with grayscale bars.
pub const GRAYSCALE_BARS_IMAGE: &'static str = "tpg_grayscale_bars.sof";

/// Which image a programming run loads.
#[derive(Clone, Copy, Debug, PartialEq, Eq, Structural)]
pub enum ImageSelector {
    ColourBars,
    GrayscaleBars,
}

pub open spec fn image_file_of(sel: ImageSelector) -> Seq<char> {
    match sel {
        ImageSelector::ColourBars => COLOUR_BARS_IMAGE@,
        ImageSelector::GrayscaleBars => GRAYSCALE_BARS_IMAGE@,
    }
}

/// The file name of the selected image.
pub fn image_file(sel: ImageSelector) -> (r: &'static str)
    ensures
        r@ == image_file_of(sel),
{
    match sel {
        ImageSelector::ColourBars => COLOUR_BARS_IMAGE,
        ImageSelector::GrayscaleBars => GRAYSCALE_BARS_IMAGE,
    }
}

/// The path of an image file: the file name under the image directory.
pub fn sof_file_path(sof_file: &str) -> (r: String)
    ensures
        r@ == IMAGE_DIR@ + sof_file@,
{
    let mut path = String::from_str(IMAGE_DIR);
    path.append(sof_file);
    path
}

/// The arguments of the programming tool that write the image at `sof_path`
/// to the device on cable `cable` over JTAG.
pub fn programming_args(cable: &str, sof_path: &str) -> (r: Vec<String>)
    ensures
        r@.len() == 4,
        r@[0]@ == "--cable="@ + cable@,
        r@[1]@ == "--mode=JTAG"@,
        r@[2]@ == "-o"@,
        r@[3]@ == "p;"@ + sof_path@,
{
    let mut cable_arg = String::from_str("--cable=");
    cable_arg.append(cable);
    let mut op_arg = String::from_str("p;");
    op_arg.append(sof_path);
    let mut r: Vec<String> = Vec::new();
    r.push(cable_arg);
    r.push(String::from_str("--mode=JTAG"));
    r.push(String::from_str("-o"));
    r.push(op_arg);
    r
}

/// A programming run is accepted when the tool exited successfully, its
/// standard output holds the success marker, and neither of its streams holds
/// the error marker.
pub open spec fn accepted(
    exit_ok: bool,
    success_in_stdout: bool,
    error_in_stdout: bool,
    error_in_stderr: bool,
) -> bool {
    exit_ok && success_in_stdout && !error_in_stdout && !error_in_stderr
}

/// Accepting a run needs all of its checks: a successful run that fails any
/// single one of them, and no other, is rejected.
pub proof fn lemma_each_check_decides(
    exit_ok: bool,
    success_in_stdout: bool,
    error_in_stdout: bool,
    error_in_stderr: bool,
)
    ensures
        accepted(exit_ok, success_in_stdout, error_in_stdout, error_in_stderr) <==> (exit_ok
            && success_in_stdout && !error_in_stdout && !error_in_stderr),
        accepted(true, true, false, false),
        !accepted(false, true, false, false),
        !accepted(true, false, false, false),
        !accepted(true, true, true, false),
        !accepted(true, true, false, true),
{
}

/// Whether a run passes, given the outcome of each check.
pub fn verdict(
    exit_ok: bool,
    success_in_stdout: bool,
    error_in_stdout: bool,
    error_in_stderr: bool,
) -> (r: bool)
    ensures
        r == accepted(exit_ok, success_in_stdout, error_in_stdout, error_in_stderr),
{
    exit_ok && success_in_stdout && !error_in_stdout && !error_in_stderr
}

/// Why a programming run was judged a failure. Both captured streams are
/// kept, decoded, for diagnosis.
#[derive(Debug)]
pub enum ProgramFailure {
    /// The tool exited with a failure status.
    ExitStatus { stdout: String, stderr: String },
    /// The output lacked the success marker or held the error marker.
    Output { stdout: String, stderr: String },
}

impl ProgramFailure {
    pub open spec fn streams(self) -> (Seq<char>, Seq<char>) {
        match self {
            ProgramFailure::ExitStatus { stdout, stderr } => (stdout@, stderr@),
            ProgramFailure::Output { stdout, stderr } => (stdout@, stderr@),
        }
    }
}

/// Judges a finished run of the programming tool from its exit status and
/// its captured streams.
pub fn judge_programming(exit_ok: bool, stdout: &[u8], stderr: &[u8]) -> (r: Result<
    (),
    ProgramFailure,
>)
    ensures
        r is Ok <==> accepted(
            exit_ok,
            pattern_found(SUCCESS_PATTERN@, lossy_text(stdout@)),
            pattern_found(ERROR_PATTERN@, lossy_text(stdout@)),
            pattern_found(ERROR_PATTERN@, lossy_text(stderr@)),
        ),
        !exit_ok ==> r matches Err(ProgramFailure::ExitStatus { .. }),
        exit_ok ==> !(r matches Err(ProgramFailure::ExitStatus { .. })),
        r matches Err(f) ==> f.streams() == (lossy_text(stdout@), lossy_text(stderr@)),
{
    let out = decode_lossy(stdout);
    let err = decode_lossy(stderr);
    if !exit_ok {
        return Err(ProgramFailure::ExitStatus { stdout: out, stderr: err });
    }
    let success = regex_finds(SUCCESS_PATTERN, out.as_str());
    let error_out = regex_finds(ERROR_PATTERN, out.as_str());
    let error_err = regex_finds(ERROR_PATTERN, err.as_str());
    match (success, error_out, error_err) {
        (Ok(s), Ok(eo), Ok(ee)) => {
            if verdict(exit_ok, s, eo, ee) {
                Ok(())
            } else {
                Err(ProgramFailure::Output { stdout: out, stderr: err })
            }
        },
        _ => vstd::pervasive::unreached(),
    }
}

} // verus!
