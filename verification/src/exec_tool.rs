//! The answer of a foreground `portal_exec` run: its output, the error
//! stream after a marker, a non-zero exit code, cut to a byte limit.
use vstd::prelude::*;
use crate::callback::{lossy_string, utf8_lossy};
use crate::numbers::{decimal, decimal_signed, i64_to_string, u64_to_string};
use crate::text::{prefix_bytes, take_bytes, utf8_len};

verus! {

/// The most bytes of output a run returns.
pub const MAX_EXEC_OUTPUT: usize = 100000;

/// The text of a run: standard output, then standard error after a marker
/// when there is any, then the exit code when it is not zero.
pub open spec fn exec_text_spec(out: Seq<char>, err: Seq<char>, code: int) -> Seq<char> {
    out + (if err.len() > 0 {
        "\n--- stderr ---\n"@ + err
    } else {
        Seq::empty()
    }) + (if code != 0 {
        "\n(exit code: "@ + decimal_signed(code) + ")"@
    } else {
        Seq::empty()
    })
}

/// What a run returns for its text, and whether it was cut: at most
/// `MAX_EXEC_OUTPUT` bytes, followed by a note when longer.
pub open spec fn exec_report_spec(text: Seq<char>) -> (Seq<char>, bool) {
    if utf8_len(text) > MAX_EXEC_OUTPUT {
        (
            take_bytes(text, MAX_EXEC_OUTPUT as int) + "\n...\n(output truncated at "@ + decimal(
                MAX_EXEC_OUTPUT as nat,
            ) + " chars)"@,
            true,
        )
    } else {
        (text, false)
    }
}

/// The answer of a run with the given output streams (each decoded as
/// UTF-8, invalid sequences replaced) and exit code (see
/// [`exec_report_spec`]); `None` when the cut would fall inside a character.
pub fn exec_report(stdout: &[u8], stderr: &[u8], exit_code: i32) -> (r: Option<(String, bool)>)
    ensures
        ({
            let text = exec_text_spec(utf8_lossy(stdout@), utf8_lossy(stderr@), exit_code as int);
            match r {
                Some((t, cut)) => (t@, cut) == exec_report_spec(text),
                None => utf8_len(text) > MAX_EXEC_OUTPUT && !vstd::utf8::is_char_boundary(
                    vstd::utf8::encode_utf8(text),
                    MAX_EXEC_OUTPUT as int,
                ),
            }
        }),
{
    let mut text = lossy_string(stdout);
    let err = lossy_string(stderr);
    let ghost out_part = text@;
    if err.as_str().unicode_len() > 0 {
        text.append("\n--- stderr ---\n");
        text.append(err.as_str());
    }
    let ghost err_part = if err@.len() > 0 {
        "\n--- stderr ---\n"@ + err@
    } else {
        Seq::<char>::empty()
    };
    assert(text@ =~= out_part + err_part);
    let ghost before_code = text@;
    if exit_code != 0 {
        text.append("\n(exit code: ");
        text.append(i64_to_string(exit_code as i64).as_str());
        text.append(")");
    }
    let ghost code_part = if exit_code != 0 {
        "\n(exit code: "@ + decimal_signed(exit_code as int) + ")"@
    } else {
        Seq::<char>::empty()
    };
    assert(text@ =~= before_code + code_part);
    assert(text@ =~= exec_text_spec(utf8_lossy(stdout@), utf8_lossy(stderr@), exit_code as int));
    let len = text.as_str().as_bytes().len();
    if len > MAX_EXEC_OUTPUT {
        if !text.as_str().is_char_boundary(MAX_EXEC_OUTPUT) {
            return None;
        }
        let mut cut = prefix_bytes(text.as_str(), MAX_EXEC_OUTPUT);
        cut.append("\n...\n(output truncated at ");
        cut.append(u64_to_string(MAX_EXEC_OUTPUT as u64).as_str());
        cut.append(" chars)");
        Some((cut, true))
    } else {
        Some((text, false))
    }
}

} // verus!
