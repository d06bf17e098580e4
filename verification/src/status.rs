//! Status lines for people: one per major change of state.
use vstd::prelude::*;

verus! {

/// A status line: the prefix, in colour if the terminal has it, and the message.
pub open spec fn status_line(
    prefix: Seq<char>,
    color: Seq<char>,
    msg: Seq<char>,
    colored: bool,
) -> Seq<char> {
    if colored {
        "\x1b["@ + color + "m"@ + prefix + "\x1b[0m "@ + msg
    } else {
        prefix + " "@ + msg
    }
}

/// Colour is used on a terminal, unless the user has asked for none.
pub fn supports_color(is_terminal: bool, no_color_set: bool) -> (r: bool)
    ensures
        r == (is_terminal && !no_color_set),
{
    is_terminal && !no_color_set
}

/// A status line.
pub fn fmt(prefix: &str, color: &str, msg: &str, colored: bool) -> (r: String)
    ensures
        r@ == status_line(prefix@, color@, msg@, colored),
{
    if colored {
        let mut r: String = "\x1b[".to_owned();
        r.append(color);
        r.append("m");
        r.append(prefix);
        r.append("\x1b[0m ");
        r.append(msg);
        r
    } else {
        let mut r: String = prefix.to_owned();
        r.append(" ");
        r.append(msg);
        r
    }
}

/// The line for something that went well.
pub fn ok(msg: &str, colored: bool) -> (r: String)
    ensures
        r@ == status_line("✓"@, "1;32"@, msg@, colored),
{
    fmt("✓", "1;32", msg, colored)
}

/// The line for something that begins.
pub fn step(msg: &str, colored: bool) -> (r: String)
    ensures
        r@ == status_line("▸"@, "1;34"@, msg@, colored),
{
    fmt("▸", "1;34", msg, colored)
}

/// The line for a remark.
pub fn info(msg: &str, colored: bool) -> (r: String)
    ensures
        r@ == status_line("·"@, "1;36"@, msg@, colored),
{
    fmt("·", "1;36", msg, colored)
}

/// The line for a warning.
pub fn warn(msg: &str, colored: bool) -> (r: String)
    ensures
        r@ == status_line("!"@, "1;33"@, msg@, colored),
{
    fmt("!", "1;33", msg, colored)
}

/// Without colour a line is its mark, a blank and the message; with colour only the mark
/// is coloured, and the message is the same.
pub proof fn law_message_is_kept(prefix: &str, color: &str, msg: &str, a: String, b: String)
    requires
        call_ensures(fmt, (prefix, color, msg, false), a),
        call_ensures(fmt, (prefix, color, msg, true), b),
    ensures
        a@ == prefix@ + " "@ + msg@,
        b@ == "\x1b["@ + color@ + "m"@ + prefix@ + "\x1b[0m "@ + msg@,
{
}

/// Each kind of line has its mark.
pub proof fn law_lines_have_their_marks(msg: &str, a: String, b: String, c: String, d: String)
    requires
        call_ensures(ok, (msg, false), a),
        call_ensures(step, (msg, false), b),
        call_ensures(info, (msg, false), c),
        call_ensures(warn, (msg, false), d),
    ensures
        a@ == "✓"@ + " "@ + msg@,
        b@ == "▸"@ + " "@ + msg@,
        c@ == "·"@ + " "@ + msg@,
        d@ == "!"@ + " "@ + msg@,
{
}

/// Each kind of line has its colour: green, blue, cyan and yellow, in bold.
pub proof fn law_lines_have_their_colours(msg: &str, a: String, b: String, c: String, d: String)
    requires
        call_ensures(ok, (msg, true), a),
        call_ensures(step, (msg, true), b),
        call_ensures(info, (msg, true), c),
        call_ensures(warn, (msg, true), d),
    ensures
        a@ == "\x1b["@ + "1;32"@ + "m"@ + "✓"@ + "\x1b[0m "@ + msg@,
        b@ == "\x1b["@ + "1;34"@ + "m"@ + "▸"@ + "\x1b[0m "@ + msg@,
        c@ == "\x1b["@ + "1;36"@ + "m"@ + "·"@ + "\x1b[0m "@ + msg@,
        d@ == "\x1b["@ + "1;33"@ + "m"@ + "!"@ + "\x1b[0m "@ + msg@,
{
}

/// There is colour only on a terminal, and never against the user's will.
pub proof fn law_colour_is_for_terminals(terminal: bool, declined: bool, r: bool)
    requires
        call_ensures(supports_color, (terminal, declined), r),
    ensures
        r ==> terminal && !declined,
        terminal && !declined ==> r,
{
}

} // verus!
