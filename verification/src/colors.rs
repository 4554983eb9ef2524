use vstd::prelude::*;

verus! {

use crate::text::{i32_to_string, signed_dec_seq};

/// The text wrapped in a 24-bit foreground color escape:
/// `ESC[38;2;<r>;<g>;<b>m`, the text, then the reset escape.
pub open spec fn color_string_spec(rgb: [i32; 3], text: Seq<char>) -> Seq<char> {
    "\u{1B}[38;2;"@ + signed_dec_seq(rgb[0] as int) + ";"@ + signed_dec_seq(rgb[1] as int) + ";"@
        + signed_dec_seq(rgb[2] as int) + "m"@ + text + "\u{1B}[0m"@
}

/// Wraps `text` in the terminal escape for the given 24-bit color.
pub fn color_string(rgb: [i32; 3], text: &str) -> (r: String)
    ensures
        r@ == color_string_spec(rgb, text@),
{
    let mut s = String::from_str("\u{1B}[38;2;");
    s.append(i32_to_string(rgb[0]).as_str());
    s.append(";");
    s.append(i32_to_string(rgb[1]).as_str());
    s.append(";");
    s.append(i32_to_string(rgb[2]).as_str());
    s.append("m");
    s.append(text);
    s.append("\u{1B}[0m");
    s
}

/// The text wrapped in the bold escape and the reset escape.
pub open spec fn bold_string_spec(text: Seq<char>) -> Seq<char> {
    "\u{1B}[1m"@ + text + "\u{1B}[0m"@
}

/// Wraps `text` in the terminal escape for bold.
pub fn bold_string(text: &str) -> (r: String)
    ensures
        r@ == bold_string_spec(text@),
{
    let mut s = String::from_str("\u{1B}[1m");
    s.append(text);
    s.append("\u{1B}[0m");
    s
}

} // verus!
