//! The warning shown for the deprecated `primitive` and `structure`
//! arguments of `#[pulsar_type(...)]`, in the compiler's diagnostic style,
//! with ANSI colors unless they are turned off.

use vstd::prelude::*;

verus! {

/// `text` in the ANSI style `code`, or plain when colors are off.
pub open spec fn paint(code: Seq<char>, text: Seq<char>, no_color: bool) -> Seq<char> {
    if no_color {
        text
    } else {
        "\x1b["@ + code + "m"@ + text + "\x1b[0m"@
    }
}

/// The gutter bar.
pub open spec fn bar(no_color: bool) -> Seq<char> {
    paint("1;34"@, "|"@, no_color)
}

/// The dashed rule under the header and at the end.
pub open spec fn rule(no_color: bool) -> Seq<char> {
    paint("2"@, "─────────────────────────────"@, no_color)
}

/// `s` followed by the header: the warning line, the location of the first
/// deprecated argument and a rule.
pub open spec fn header_lines(s: Seq<char>, loc: Seq<char>, no_color: bool) -> Seq<char> {
    s + paint("1;33"@, "warning"@, no_color) + ": deprecated argument(s) passed to "@ + paint(
        "1;37"@,
        "#[pulsar_type]"@,
        no_color,
    ) + "\n"@ + " "@ + paint("1;34"@, "-->"@, no_color) + " "@ + paint("2;37"@, loc, no_color) + "\n"@ + " "@ + bar(
        no_color,
    ) + " "@ + rule(no_color) + "\n"@
}

/// `s` followed by the two lines about the ignored argument `arg` (written
/// with `suffix` after it) found at `at`.
pub open spec fn arg_lines(s: Seq<char>, arg: Seq<char>, suffix: Seq<char>, at: Seq<char>, no_color: bool) -> Seq<char> {
    s + " "@ + bar(no_color) + " "@ + paint("2;37"@, "at"@, no_color) + ":"@ + paint("2;37"@, at, no_color) + "\n"@
        + " "@ + bar(no_color) + " in "@ + paint("2"@, "#[pulsar_type("@, no_color) + paint("1;37"@, arg, no_color)
        + paint("2"@, suffix, no_color) + ": argument is "@ + paint("33"@, "silently ignored"@, no_color) + "\n"@
}

/// `s` followed by the note that the distinction is gone.
pub open spec fn note_lines(s: Seq<char>, no_color: bool) -> Seq<char> {
    s + " "@ + bar(no_color) + "\n"@ + " "@ + bar(no_color) + " "@ + paint("1;36"@, "note"@, no_color) + ": the "@
        + paint("1;37"@, "primitive"@, no_color) + " / "@ + paint("1;37"@, "structure"@, no_color)
        + " type distinction "@ + paint("31"@, "has been removed"@, no_color) + "\n"@ + " "@ + bar(no_color)
        + "       all types now follow a "@ + paint("32"@, "single unified registration path"@, no_color) + "\n"@
        + " "@ + bar(no_color) + "\n"@
}

/// `s` followed by the suggestion to write `#[pulsar_type(...)]` in place
/// of `before`.
pub open spec fn help_line(s: Seq<char>, before: Seq<char>, no_color: bool) -> Seq<char> {
    s + " "@ + bar(no_color) + " "@ + paint("1;32"@, "help"@, no_color) + ":  "@ + paint("31"@, before, no_color) + "  "@
        + paint("33"@, "→"@, no_color) + "  "@ + paint("1;32"@, "#[pulsar_type(...)]"@, no_color) + "\n"@
}

/// `s` followed by the closing rule and a blank line.
pub open spec fn footer_lines(s: Seq<char>, no_color: bool) -> Seq<char> {
    s + " "@ + bar(no_color) + " "@ + rule(no_color) + "\n"@ + "\n"@
}

/// The whole warning, for the deprecated `primitive` argument found at
/// `primitive_at` and the `structure` argument found at `structure_at`
/// (each a `file:line:column` location): a blank line, the header at the
/// first of them, a pair of lines for each, the note, a suggestion for
/// each, and the closing rule.
pub open spec fn deprecation_text(primitive_at: Option<Seq<char>>, structure_at: Option<Seq<char>>, no_color: bool) -> Seq<char> {
    let loc = if primitive_at is Some {
        primitive_at.unwrap()
    } else {
        structure_at.unwrap()
    };
    let a = header_lines("\n"@, loc, no_color);
    let b = if primitive_at is Some {
        arg_lines(a, "primitive"@, ", ...)]"@, primitive_at.unwrap(), no_color)
    } else {
        a
    };
    let c = if structure_at is Some {
        arg_lines(b, "structure"@, " = ..., ...)]"@, structure_at.unwrap(), no_color)
    } else {
        b
    };
    let d = note_lines(c, no_color);
    let e = if primitive_at is Some {
        help_line(d, "#[pulsar_type(primitive, ...)]"@, no_color)
    } else {
        d
    };
    let f = if structure_at is Some {
        help_line(e, "#[pulsar_type(structure = ..., ...)]"@, no_color)
    } else {
        e
    };
    footer_lines(f, no_color)
}

/// The text of an optional string.
pub open spec fn opt_view(o: Option<String>) -> Option<Seq<char>> {
    match o {
        Some(s) => Some(s@),
        None => None,
    }
}

/// The warning for the deprecated arguments found at `primitive_at` and
/// `structure_at`, colored unless `no_color`.
pub fn deprecation_warning_text(primitive_at: Option<String>, structure_at: Option<String>, no_color: bool) -> (r: String)
    requires
        primitive_at is Some || structure_at is Some,
    ensures
        r@ == deprecation_text(opt_view(primitive_at), opt_view(structure_at), no_color),
{
    let mut out = String::new();
    out.append("\n");
    let loc: &str = match &primitive_at {
        Some(p) => p.as_str(),
        None => match &structure_at {
            Some(t) => t.as_str(),
            None => "",
        },
    };
    push_header(&mut out, loc, no_color);
    match &primitive_at {
        Some(p) => push_arg(&mut out, "primitive", ", ...)]", p.as_str(), no_color),
        None => {},
    }
    match &structure_at {
        Some(t) => push_arg(&mut out, "structure", " = ..., ...)]", t.as_str(), no_color),
        None => {},
    }
    push_note(&mut out, no_color);
    if primitive_at.is_some() {
        push_help(&mut out, "#[pulsar_type(primitive, ...)]", no_color);
    }
    if structure_at.is_some() {
        push_help(&mut out, "#[pulsar_type(structure = ..., ...)]", no_color);
    }
    push_footer(&mut out, no_color);
    out
}

fn push_paint(out: &mut String, code: &str, text: &str, no_color: bool)
    ensures
        final(out)@ == old(out)@ + paint(code@, text@, no_color),
{
    if no_color {
        out.append(text);
    } else {
        out.append("\x1b[");
        out.append(code);
        out.append("m");
        out.append(text);
        out.append("\x1b[0m");
        proof {
            assert(final(out)@ =~= old(out)@ + paint(code@, text@, no_color));
        }
    }
}

fn push_bar(out: &mut String, no_color: bool)
    ensures
        final(out)@ == old(out)@ + bar(no_color),
{
    push_paint(out, "1;34", "|", no_color);
}

fn push_rule(out: &mut String, no_color: bool)
    ensures
        final(out)@ == old(out)@ + rule(no_color),
{
    push_paint(out, "2", "─────────────────────────────", no_color);
}

fn push_header(out: &mut String, loc: &str, no_color: bool)
    ensures
        final(out)@ == header_lines(old(out)@, loc@, no_color),
{
    push_paint(out, "1;33", "warning", no_color);
    out.append(": deprecated argument(s) passed to ");
    push_paint(out, "1;37", "#[pulsar_type]", no_color);
    out.append("\n");
    out.append(" ");
    push_paint(out, "1;34", "-->", no_color);
    out.append(" ");
    push_paint(out, "2;37", loc, no_color);
    out.append("\n");
    out.append(" ");
    push_bar(out, no_color);
    out.append(" ");
    push_rule(out, no_color);
    out.append("\n");
}

fn push_arg(out: &mut String, arg: &str, suffix: &str, at: &str, no_color: bool)
    ensures
        final(out)@ == arg_lines(old(out)@, arg@, suffix@, at@, no_color),
{
    out.append(" ");
    push_bar(out, no_color);
    out.append(" ");
    push_paint(out, "2;37", "at", no_color);
    out.append(":");
    push_paint(out, "2;37", at, no_color);
    out.append("\n");
    out.append(" ");
    push_bar(out, no_color);
    out.append(" in ");
    push_paint(out, "2", "#[pulsar_type(", no_color);
    push_paint(out, "1;37", arg, no_color);
    push_paint(out, "2", suffix, no_color);
    out.append(": argument is ");
    push_paint(out, "33", "silently ignored", no_color);
    out.append("\n");
}

fn push_note(out: &mut String, no_color: bool)
    ensures
        final(out)@ == note_lines(old(out)@, no_color),
{
    out.append(" ");
    push_bar(out, no_color);
    out.append("\n");
    out.append(" ");
    push_bar(out, no_color);
    out.append(" ");
    push_paint(out, "1;36", "note", no_color);
    out.append(": the ");
    push_paint(out, "1;37", "primitive", no_color);
    out.append(" / ");
    push_paint(out, "1;37", "structure", no_color);
    out.append(" type distinction ");
    push_paint(out, "31", "has been removed", no_color);
    out.append("\n");
    out.append(" ");
    push_bar(out, no_color);
    out.append("       all types now follow a ");
    push_paint(out, "32", "single unified registration path", no_color);
    out.append("\n");
    out.append(" ");
    push_bar(out, no_color);
    out.append("\n");
}

fn push_help(out: &mut String, before: &str, no_color: bool)
    ensures
        final(out)@ == help_line(old(out)@, before@, no_color),
{
    out.append(" ");
    push_bar(out, no_color);
    out.append(" ");
    push_paint(out, "1;32", "help", no_color);
    out.append(":  ");
    push_paint(out, "31", before, no_color);
    out.append("  ");
    push_paint(out, "33", "→", no_color);
    out.append("  ");
    push_paint(out, "1;32", "#[pulsar_type(...)]", no_color);
    out.append("\n");
}

fn push_footer(out: &mut String, no_color: bool)
    ensures
        final(out)@ == footer_lines(old(out)@, no_color),
{
    out.append(" ");
    push_bar(out, no_color);
    out.append(" ");
    push_rule(out, no_color);
    out.append("\n");
    out.append("\n");
}

} // verus!
