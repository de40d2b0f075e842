//! Rendering of the launch document as indented, human-readable JSON
//! text, specified character by character.

use crate::cli::contains_seq;
use crate::config::config_wf;
use crate::config::Config;
use crate::config::ConfigView;
use crate::config::Launch;
use crate::config::LaunchView;
use crate::config::SetupCommand;
use crate::config::SetupCommandView;
use vstd::prelude::*;
use vstd::string::StrSliceExecFns;
use vstd::string::StringExecFns;

verus! {

/// The lower-case hexadecimal digit of a value below sixteen.
pub open spec fn hex_digit(d: u32) -> char {
    if d == 0 { '0' }
    else if d == 1 { '1' }
    else if d == 2 { '2' }
    else if d == 3 { '3' }
    else if d == 4 { '4' }
    else if d == 5 { '5' }
    else if d == 6 { '6' }
    else if d == 7 { '7' }
    else if d == 8 { '8' }
    else if d == 9 { '9' }
    else if d == 10 { 'a' }
    else if d == 11 { 'b' }
    else if d == 12 { 'c' }
    else if d == 13 { 'd' }
    else if d == 14 { 'e' }
    else { 'f' }
}

/// How one character appears inside a JSON string literal: quote and
/// backslash are escaped, the named control characters take their
/// short escapes, the remaining control characters a four-digit
/// escape, and every other character stands as itself.
pub open spec fn escape_char(c: char) -> Seq<char> {
    if c == '"' { seq!['\\', '"'] }
    else if c == '\\' { seq!['\\', '\\'] }
    else if c == '\u{8}' { seq!['\\', 'b'] }
    else if c == '\t' { seq!['\\', 't'] }
    else if c == '\n' { seq!['\\', 'n'] }
    else if c == '\u{c}' { seq!['\\', 'f'] }
    else if c == '\r' { seq!['\\', 'r'] }
    else if (c as u32) < 0x20 {
        seq!['\\', 'u', '0', '0', hex_digit((c as u32) / 16), hex_digit((c as u32) % 16)]
    }
    else { seq![c] }
}

/// A whole character sequence escaped for a JSON string literal.
pub open spec fn escape_seq(s: Seq<char>) -> Seq<char>
    decreases s.len(),
{
    if s.len() == 0 {
        Seq::<char>::empty()
    } else {
        escape_seq(s.drop_last()) + escape_char(s.last())
    }
}

/// A JSON string literal: the escaped contents between double quotes.
pub open spec fn json_string(s: Seq<char>) -> Seq<char> {
    seq!['"'] + escape_seq(s) + seq!['"']
}

/// A JSON boolean literal.
pub open spec fn json_bool(b: bool) -> Seq<char> {
    if b { "true"@ } else { "false"@ }
}

/// Relies on String::push: appends one character at the end.
#[verifier::external_body]
fn push_char(out: &mut String, c: char)
    ensures
        final(out)@ == old(out)@ + seq![c],
{
    out.push(c)
}

/// The lower-case hexadecimal digit of a value below sixteen.
fn hex_char(d: u32) -> (r: char)
    requires
        d < 16,
    ensures
        r == hex_digit(d),
{
    if d == 0 { '0' }
    else if d == 1 { '1' }
    else if d == 2 { '2' }
    else if d == 3 { '3' }
    else if d == 4 { '4' }
    else if d == 5 { '5' }
    else if d == 6 { '6' }
    else if d == 7 { '7' }
    else if d == 8 { '8' }
    else if d == 9 { '9' }
    else if d == 10 { 'a' }
    else if d == 11 { 'b' }
    else if d == 12 { 'c' }
    else if d == 13 { 'd' }
    else if d == 14 { 'e' }
    else { 'f' }
}

/// Appends one character in its escaped form.
fn append_escaped_char(out: &mut String, c: char)
    ensures
        final(out)@ == old(out)@ + escape_char(c),
{
    if c == '"' {
        out.append("\\\"");
        proof {
            reveal_strlit("\\\"");
            assert(("\\\""@) =~= escape_char('"'));
        }
    } else if c == '\\' {
        out.append("\\\\");
        proof {
            reveal_strlit("\\\\");
            assert(("\\\\"@) =~= escape_char('\\'));
        }
    } else if c == '\u{8}' {
        out.append("\\b");
        proof {
            reveal_strlit("\\b");
            assert(("\\b"@) =~= escape_char('\u{8}'));
        }
    } else if c == '\t' {
        out.append("\\t");
        proof {
            reveal_strlit("\\t");
            assert(("\\t"@) =~= escape_char('\t'));
        }
    } else if c == '\n' {
        out.append("\\n");
        proof {
            reveal_strlit("\\n");
            assert(("\\n"@) =~= escape_char('\n'));
        }
    } else if c == '\u{c}' {
        out.append("\\f");
        proof {
            reveal_strlit("\\f");
            assert(("\\f"@) =~= escape_char('\u{c}'));
        }
    } else if c == '\r' {
        out.append("\\r");
        proof {
            reveal_strlit("\\r");
            assert(("\\r"@) =~= escape_char('\r'));
        }
    } else {
        let u = c as u32;
        if u < 0x20 {
            out.append("\\u00");
            let hi = hex_char(u / 16);
            let lo = hex_char(u % 16);
            push_char(out, hi);
            push_char(out, lo);
            proof {
                reveal_strlit("\\u00");
                assert(final(out)@ =~= old(out)@ + escape_char(c));
            }
        } else {
            push_char(out, c);
            proof {
                assert(final(out)@ =~= old(out)@ + escape_char(c));
            }
        }
    }
}

/// Appends a whole JSON string literal: the contents escaped, between
/// double quotes.
fn append_json_string(out: &mut String, s: &str)
    ensures
        final(out)@ == old(out)@ + json_string(s@),
{
    push_char(out, '"');
    let n = s.unicode_len();
    let mut i: usize = 0;
    while i < n
        invariant
            n == s@.len(),
            i <= n,
            out@ == old(out)@ + seq!['"'] + escape_seq(s@.subrange(0, i as int)),
        decreases n - i,
    {
        let c = s.get_char(i);
        append_escaped_char(out, c);
        proof {
            assert(s@.subrange(0, (i + 1) as int).drop_last() =~= s@.subrange(0, i as int));
            assert(s@.subrange(0, (i + 1) as int).last() == s@[i as int]);
            assert(out@ =~= old(out)@ + seq!['"'] + escape_seq(s@.subrange(0, (i + 1) as int)));
        }
        i = i + 1;
    }
    push_char(out, '"');
    proof {
        assert(s@.subrange(0, n as int) =~= s@);
        assert(out@ =~= old(out)@ + json_string(s@));
    }
}

/// Appends a JSON boolean literal.
fn append_bool(out: &mut String, b: bool)
    ensures
        final(out)@ == old(out)@ + json_bool(b),
{
    if b {
        out.append("true");
    } else {
        out.append("false");
    }
}

/// One setup directive as an indented JSON object.
pub open spec fn render_setup_command(sc: SetupCommandView) -> Seq<char> {
    "        {\n          \"description\": "@ + json_string(sc.description)
        + ",\n          \"text\": "@ + json_string(sc.text)
        + ",\n          \"ignoreFailures\": "@ + json_bool(sc.ignore_failures)
        + "\n        }"@
}

/// The setup directives one after the other, separated by a comma and
/// a line break.
pub open spec fn render_setup_items(s: Seq<SetupCommandView>) -> Seq<char>
    decreases s.len(),
{
    if s.len() == 0 {
        Seq::<char>::empty()
    } else if s.len() == 1 {
        render_setup_command(s.last())
    } else {
        render_setup_items(s.drop_last()) + ",\n"@ + render_setup_command(s.last())
    }
}

/// The setup directives as a JSON array.
pub open spec fn render_setup_array(s: Seq<SetupCommandView>) -> Seq<char> {
    if s.len() == 0 {
        "[]"@
    } else {
        "[\n"@ + render_setup_items(s) + "\n      ]"@
    }
}

/// One trailing argument as an indented JSON string.
pub open spec fn render_arg_item(a: Seq<char>) -> Seq<char> {
    "        "@ + json_string(a)
}

/// The trailing arguments one after the other, separated by a comma
/// and a line break.
pub open spec fn render_args_items(args: Seq<Seq<char>>) -> Seq<char>
    decreases args.len(),
{
    if args.len() == 0 {
        Seq::<char>::empty()
    } else if args.len() == 1 {
        render_arg_item(args.last())
    } else {
        render_args_items(args.drop_last()) + ",\n"@ + render_arg_item(args.last())
    }
}

/// The trailing arguments as a JSON array.
pub open spec fn render_args_array(args: Seq<Seq<char>>) -> Seq<char> {
    if args.len() == 0 {
        "[]"@
    } else {
        "[\n"@ + render_args_items(args) + "\n      ]"@
    }
}

/// One configuration as an indented JSON object, its keys in the
/// fixed order.
pub open spec fn render_config(c: ConfigView) -> Seq<char> {
    "    {\n      \"name\": "@ + json_string(c.name)
        + ",\n      \"type\": "@ + json_string(c.config_type)
        + ",\n      \"request\": "@ + json_string(c.request)
        + ",\n      \"args\": "@ + render_args_array(c.args)
        + ",\n      \"program\": "@ + json_string(c.program)
        + ",\n      \"cwd\": "@ + json_string(c.cwd)
        + ",\n      \"setupCommands\": "@ + render_setup_array(c.setup_commands)
        + "\n    }"@
}

/// The configurations one after the other, separated by a comma and a
/// line break.
pub open spec fn render_config_items(cs: Seq<ConfigView>) -> Seq<char>
    decreases cs.len(),
{
    if cs.len() == 0 {
        Seq::<char>::empty()
    } else if cs.len() == 1 {
        render_config(cs.last())
    } else {
        render_config_items(cs.drop_last()) + ",\n"@ + render_config(cs.last())
    }
}

/// The whole launch document as indented JSON text, without a
/// trailing line break.
pub open spec fn render_launch(l: LaunchView) -> Seq<char> {
    if l.configurations.len() == 0 {
        "{\n  \"configurations\": []\n}"@
    } else {
        "{\n  \"configurations\": [\n"@ + render_config_items(l.configurations) + "\n  ]\n}"@
    }
}

/// Appends one setup directive.
fn append_setup_command(out: &mut String, sc: &SetupCommand)
    ensures
        final(out)@ == old(out)@ + render_setup_command(sc@),
{
    out.append("        {\n          \"description\": ");
    append_json_string(out, sc.description.as_str());
    out.append(",\n          \"text\": ");
    append_json_string(out, sc.text.as_str());
    out.append(",\n          \"ignoreFailures\": ");
    append_bool(out, sc.ignore_failures);
    out.append("\n        }");
    proof {
        assert(out@ =~= old(out)@ + render_setup_command(sc@));
    }
}

/// Appends the setup directives as a JSON array.
fn append_setup_array(out: &mut String, scs: &Vec<SetupCommand>)
    ensures
        final(out)@ == old(out)@ + render_setup_array(scs@.map_values(|sc: SetupCommand| sc@)),
{
    let ghost view = scs@.map_values(|sc: SetupCommand| sc@);
    if scs.len() == 0 {
        out.append("[]");
        return ;
    }
    out.append("[\n");
    let mut i: usize = 0;
    while i < scs.len()
        invariant
            0 < scs.len(),
            i <= scs.len(),
            view == scs@.map_values(|sc: SetupCommand| sc@),
            out@ == old(out)@ + "[\n"@ + render_setup_items(view.subrange(0, i as int)),
        decreases scs.len() - i,
    {
        if i > 0 {
            out.append(",\n");
        }
        append_setup_command(out, &scs[i]);
        proof {
            let prefix = view.subrange(0, i as int);
            let extended = view.subrange(0, (i + 1) as int);
            assert(extended.drop_last() =~= prefix);
            assert(extended.last() == view[i as int]);
            assert(out@ =~= old(out)@ + "[\n"@ + render_setup_items(extended));
        }
        i = i + 1;
    }
    out.append("\n      ]");
    proof {
        assert(view.subrange(0, scs@.len() as int) =~= view);
        assert(out@ =~= old(out)@ + render_setup_array(view));
    }
}

/// Appends the trailing arguments as a JSON array.
fn append_args_array(out: &mut String, args: &Vec<String>)
    ensures
        final(out)@ == old(out)@ + render_args_array(args.deep_view()),
{
    let ghost view = args.deep_view();
    if args.len() == 0 {
        out.append("[]");
        return ;
    }
    out.append("[\n");
    let mut i: usize = 0;
    while i < args.len()
        invariant
            0 < args.len(),
            i <= args.len(),
            view == args.deep_view(),
            out@ == old(out)@ + "[\n"@ + render_args_items(view.subrange(0, i as int)),
        decreases args.len() - i,
    {
        if i > 0 {
            out.append(",\n");
        }
        out.append("        ");
        append_json_string(out, args[i].as_str());
        proof {
            let prefix = view.subrange(0, i as int);
            let extended = view.subrange(0, (i + 1) as int);
            assert(extended.drop_last() =~= prefix);
            assert(extended.last() == view[i as int]);
            assert(out@ =~= old(out)@ + "[\n"@ + render_args_items(extended));
        }
        i = i + 1;
    }
    out.append("\n      ]");
    proof {
        assert(view.subrange(0, args@.len() as int) =~= view);
        assert(out@ =~= old(out)@ + render_args_array(view));
    }
}

/// Appends one configuration.
#[verifier::rlimit(50)]
fn append_config(out: &mut String, c: &Config)
    ensures
        final(out)@ == old(out)@ + render_config(c@),
{
    out.append("    {\n      \"name\": ");
    append_json_string(out, c.name.as_str());
    out.append(",\n      \"type\": ");
    append_json_string(out, c.config_type.as_str());
    out.append(",\n      \"request\": ");
    append_json_string(out, c.request.as_str());
    out.append(",\n      \"args\": ");
    append_args_array(out, &c.args);
    out.append(",\n      \"program\": ");
    append_json_string(out, c.program.as_str());
    out.append(",\n      \"cwd\": ");
    append_json_string(out, c.cwd.as_str());
    out.append(",\n      \"setupCommands\": ");
    append_setup_array(out, &c.setup_commands);
    out.append("\n    }");
    proof {
        assert(out@ =~= old(out)@ + render_config(c@));
    }
}

/// What stands between two other pieces of a concatenation stands
/// inside the whole.
pub proof fn lemma_contains_middle(a: Seq<char>, b: Seq<char>, c: Seq<char>)
    ensures
        contains_seq(a + b + c, b),
{
    let m = a + b + c;
    assert(m.subrange(a.len() as int, a.len() + b.len() as int) =~= b);
}

/// In the rendered document of one configuration, the program path
/// stands verbatim (escaped as a JSON string literal) as the value of
/// the "program" key, and the arguments, in their order, as the value
/// of the "args" key.
#[verifier::rlimit(50)]
pub proof fn lemma_render_names_program_and_args(c: ConfigView, l: LaunchView)
    requires
        l.configurations == seq![c],
    ensures
        contains_seq(render_launch(l), ",\n      \"program\": "@ + json_string(c.program)),
        contains_seq(render_launch(l), ",\n      \"args\": "@ + render_args_array(c.args)),
{
    let h = "{\n  \"configurations\": [\n"@;
    let t = "\n  ]\n}"@;
    assert(render_config_items(l.configurations) == render_config(c));
    let before_args = h + "    {\n      \"name\": "@ + json_string(c.name) + ",\n      \"type\": "@
        + json_string(c.config_type) + ",\n      \"request\": "@ + json_string(c.request);
    let args_part = ",\n      \"args\": "@ + render_args_array(c.args);
    let program_part = ",\n      \"program\": "@ + json_string(c.program);
    let after_program = ",\n      \"cwd\": "@ + json_string(c.cwd) + ",\n      \"setupCommands\": "@
        + render_setup_array(c.setup_commands) + "\n    }"@ + t;
    assert(render_launch(l) =~= (before_args + args_part) + program_part + after_program);
    lemma_contains_middle(before_args + args_part, program_part, after_program);
    assert(render_launch(l) =~= before_args + args_part + (program_part + after_program));
    lemma_contains_middle(before_args, args_part, program_part + after_program);
}

/// In the rendered document of one well-formed configuration, the
/// backend key carries the fixed backend name and the request key the
/// fixed request kind.
#[verifier::rlimit(50)]
pub proof fn lemma_render_names_backend(c: ConfigView, l: LaunchView)
    requires
        l.configurations == seq![c],
        config_wf(c),
    ensures
        contains_seq(render_launch(l), ",\n      \"type\": "@ + json_string("cppdbg"@)),
        contains_seq(render_launch(l), ",\n      \"request\": "@ + json_string("launch"@)),
{
    let h = "{\n  \"configurations\": [\n"@;
    let t = "\n  ]\n}"@;
    assert(render_config_items(l.configurations) == render_config(c));
    let before_type = h + "    {\n      \"name\": "@ + json_string(c.name);
    let type_part = ",\n      \"type\": "@ + json_string(c.config_type);
    let request_part = ",\n      \"request\": "@ + json_string(c.request);
    let after_request = ",\n      \"args\": "@ + render_args_array(c.args) + ",\n      \"program\": "@
        + json_string(c.program) + ",\n      \"cwd\": "@ + json_string(c.cwd)
        + ",\n      \"setupCommands\": "@ + render_setup_array(c.setup_commands) + "\n    }"@ + t;
    assert(render_launch(l) =~= before_type + type_part + (request_part + after_request));
    lemma_contains_middle(before_type, type_part, request_part + after_request);
    assert(render_launch(l) =~= (before_type + type_part) + request_part + after_request);
    lemma_contains_middle(before_type + type_part, request_part, after_request);
}

/// The numeric value of a lower-case hexadecimal digit; sixteen for
/// anything else.
pub open spec fn hex_val(c: char) -> u32 {
    if c == '0' { 0 }
    else if c == '1' { 1 }
    else if c == '2' { 2 }
    else if c == '3' { 3 }
    else if c == '4' { 4 }
    else if c == '5' { 5 }
    else if c == '6' { 6 }
    else if c == '7' { 7 }
    else if c == '8' { 8 }
    else if c == '9' { 9 }
    else if c == 'a' { 10 }
    else if c == 'b' { 11 }
    else if c == 'c' { 12 }
    else if c == 'd' { 13 }
    else if c == 'e' { 14 }
    else if c == 'f' { 15 }
    else { 16 }
}

/// What a short escape stands for; the quote and the backslash stand
/// for themselves.
pub open spec fn unescape_short(c: char) -> char {
    if c == 'b' { '\u{8}' }
    else if c == 't' { '\t' }
    else if c == 'n' { '\n' }
    else if c == 'f' { '\u{c}' }
    else if c == 'r' { '\r' }
    else { c }
}

/// Reads escaped JSON string-literal text from the front: each
/// backslash opens a short or a four-digit escape, every other
/// character stands for itself.
pub open spec fn unescape_seq(e: Seq<char>) -> Seq<char>
    decreases e.len(),
{
    if e.len() == 0 {
        Seq::<char>::empty()
    } else if e[0] != '\\' {
        seq![e[0]] + unescape_seq(e.skip(1))
    } else if e.len() >= 6 && e[1] == 'u' {
        seq![((hex_val(e[4]) * 16 + hex_val(e[5])) as u32) as char] + unescape_seq(e.skip(6))
    } else if e.len() >= 2 {
        seq![unescape_short(e[1])] + unescape_seq(e.skip(2))
    } else {
        Seq::<char>::empty()
    }
}

/// `escape_seq`, unfolded at the front instead of the back.
proof fn lemma_escape_seq_first(s: Seq<char>)
    requires
        s.len() > 0,
    ensures
        escape_seq(s) == escape_char(s[0]) + escape_seq(s.skip(1)),
    decreases s.len(),
{
    if s.len() == 1 {
        assert(s.drop_last() =~= Seq::<char>::empty());
        assert(s.skip(1) =~= Seq::<char>::empty());
        assert(escape_seq(s) =~= escape_char(s[0]) + escape_seq(s.skip(1)));
    } else {
        lemma_escape_seq_first(s.drop_last());
        assert(s.skip(1).drop_last() =~= s.drop_last().skip(1));
        assert(s.skip(1).last() == s.last());
        assert(escape_seq(s) =~= escape_char(s[0]) + escape_seq(s.skip(1)));
    }
}

/// Unescaping the escaped form of any text restores the text: the
/// escaping loses nothing.
pub proof fn lemma_escape_round_trip(s: Seq<char>)
    ensures
        unescape_seq(escape_seq(s)) == s,
    decreases s.len(),
{
    if s.len() > 0 {
        lemma_escape_seq_first(s);
        lemma_escape_round_trip(s.skip(1));
        let c = s[0];
        let e = escape_seq(s);
        let rest = escape_seq(s.skip(1));
        let piece = escape_char(c);
        if c == '"' || c == '\\' || c == '\u{8}' || c == '\t' || c == '\n' || c == '\u{c}'
            || c == '\r' {
            assert(e.skip(2) =~= rest);
            assert(unescape_seq(e) =~= s);
        } else if (c as u32) < 0x20 {
            let u = c as u32;
            assert(hex_val(hex_digit(u / 16)) == u / 16);
            assert(hex_val(hex_digit(u % 16)) == u % 16);
            vstd::utf8::char_u32_cast(c, u);
            assert(e.skip(6) =~= rest);
            assert(unescape_seq(e) =~= s);
        } else {
            assert(e.skip(1) =~= rest);
            assert(unescape_seq(e) =~= s);
        }
    }
}

/// Two texts with the same JSON string literal are the same text.
pub proof fn lemma_json_string_injective(a: Seq<char>, b: Seq<char>)
    requires
        json_string(a) == json_string(b),
    ensures
        a == b,
{
    let ja = json_string(a);
    let jb = json_string(b);
    assert(escape_seq(a) =~= ja.subrange(1, ja.len() - 1));
    assert(escape_seq(b) =~= jb.subrange(1, jb.len() - 1));
    lemma_escape_round_trip(a);
    lemma_escape_round_trip(b);
}

/// No raw line break anywhere in the text.
pub open spec fn no_newline(s: Seq<char>) -> bool {
    forall|i: int| 0 <= i < s.len() ==> s[i] != '\n'
}

/// Escaped text never holds a raw line break: the line break itself
/// is escaped, and every escape is made of printable characters.
pub proof fn lemma_escape_no_newline(s: Seq<char>)
    ensures
        no_newline(escape_seq(s)),
    decreases s.len(),
{
    if s.len() > 0 {
        lemma_escape_no_newline(s.drop_last());
        assert(no_newline(escape_char(s.last())));
    }
}

/// Equal texts split alike at their last line break: when each side
/// is a piece that ends with a line break followed by a piece without
/// one, the pieces agree.
proof fn lemma_split_at_last_newline(x1: Seq<char>, y1: Seq<char>, x2: Seq<char>, y2: Seq<char>)
    requires
        x1 + y1 == x2 + y2,
        x1.len() > 0,
        x2.len() > 0,
        x1.last() == '\n',
        x2.last() == '\n',
        no_newline(y1),
        no_newline(y2),
    ensures
        x1 == x2,
        y1 == y2,
{
    let u = x1 + y1;
    assert((x1 + y1).len() == x1.len() + y1.len());
    assert((x2 + y2).len() == x2.len() + y2.len());
    if x1.len() < x2.len() {
        assert(u[x2.len() - 1] == '\n');
        assert(u[x2.len() - 1] == y1[x2.len() - 1 - x1.len()]);
        assert(false);
    }
    if x2.len() < x1.len() {
        assert(u[x1.len() - 1] == '\n');
        assert((x2 + y2)[x1.len() - 1] == y2[x1.len() - 1 - x2.len()]);
        assert(false);
    }
    assert(x1 =~= u.subrange(0, x1.len() as int));
    assert(x2 =~= (x2 + y2).subrange(0, x2.len() as int));
    assert(y1 =~= u.skip(x1.len() as int));
    assert(y2 =~= (x2 + y2).skip(x2.len() as int));
}

/// Equal texts with the same leading piece agree after it.
proof fn lemma_strip_prefix(p: Seq<char>, a: Seq<char>, b: Seq<char>)
    requires
        p + a == p + b,
    ensures
        a == b,
{
    assert(a =~= (p + a).skip(p.len() as int));
    assert(b =~= (p + b).skip(p.len() as int));
}

/// Equal texts with the same trailing piece agree before it.
proof fn lemma_strip_suffix(a: Seq<char>, b: Seq<char>, t: Seq<char>)
    requires
        a + t == b + t,
    ensures
        a == b,
{
    assert((a + t).len() == a.len() + t.len());
    assert((b + t).len() == b.len() + t.len());
    assert(a.len() == b.len());
    assert(a =~= (a + t).subrange(0, a.len() as int));
    assert(b =~= (b + t).subrange(0, b.len() as int));
}

/// Text made of two pieces without a line break has none.
proof fn lemma_no_newline_concat(a: Seq<char>, b: Seq<char>)
    requires
        no_newline(a),
        no_newline(b),
    ensures
        no_newline(a + b),
{
    assert forall|i: int| 0 <= i < (a + b).len() implies (a + b)[i] != '\n' by {
        if i < a.len() {
            assert((a + b)[i] == a[i]);
        } else {
            assert((a + b)[i] == b[i - a.len()]);
        }
    }
}

/// A JSON string literal holds no raw line break.
proof fn lemma_json_string_no_newline(s: Seq<char>)
    ensures
        no_newline(json_string(s)),
{
    lemma_escape_no_newline(s);
    let j = json_string(s);
    let e = escape_seq(s);
    assert(j.len() == e.len() + 2);
    assert forall|i: int| 0 <= i < j.len() implies j[i] != '\n' by {
        if i == 0 {
            assert(j[i] == '"');
        } else if i < 1 + e.len() {
            assert(j[i] == e[i - 1]);
        } else {
            assert(j[i] == '"');
        }
    }
}

/// A rendered argument line holds no raw line break.
proof fn lemma_arg_item_no_newline(a: Seq<char>)
    ensures
        no_newline(render_arg_item(a)),
{
    lemma_json_string_no_newline(a);
    reveal_strlit("        ");
    assert(no_newline("        "@));
    lemma_no_newline_concat("        "@, json_string(a));
}

/// Two argument lists whose rendered lines read the same are the same
/// list.
proof fn lemma_args_items_injective(a1: Seq<Seq<char>>, a2: Seq<Seq<char>>)
    requires
        a1.len() > 0,
        a2.len() > 0,
        render_args_items(a1) == render_args_items(a2),
    ensures
        a1 == a2,
    decreases a1.len(),
{
    reveal_strlit(",\n");
    let i1 = render_args_items(a1);
    let i2 = render_args_items(a2);
    if a1.len() == 1 && a2.len() == 1 {
        lemma_strip_prefix("        "@, json_string(a1.last()), json_string(a2.last()));
        lemma_json_string_injective(a1.last(), a2.last());
        assert(a1 =~= a2);
    } else if a1.len() == 1 {
        lemma_arg_item_no_newline(a1.last());
        let k = render_args_items(a2.drop_last()).len() as int;
        assert(i2[k + 1] == '\n');
        assert(false);
    } else if a2.len() == 1 {
        lemma_arg_item_no_newline(a2.last());
        let k = render_args_items(a1.drop_last()).len() as int;
        assert(i1[k + 1] == '\n');
        assert(false);
    } else {
        let x1 = render_args_items(a1.drop_last()) + ",\n"@;
        let y1 = render_arg_item(a1.last());
        let x2 = render_args_items(a2.drop_last()) + ",\n"@;
        let y2 = render_arg_item(a2.last());
        assert(i1 =~= x1 + y1);
        assert(i2 =~= x2 + y2);
        assert(x1.last() == '\n');
        assert(x2.last() == '\n');
        lemma_arg_item_no_newline(a1.last());
        lemma_arg_item_no_newline(a2.last());
        lemma_split_at_last_newline(x1, y1, x2, y2);
        lemma_strip_prefix("        "@, json_string(a1.last()), json_string(a2.last()));
        lemma_json_string_injective(a1.last(), a2.last());
        lemma_strip_suffix(
            render_args_items(a1.drop_last()),
            render_args_items(a2.drop_last()),
            ",\n"@,
        );
        lemma_args_items_injective(a1.drop_last(), a2.drop_last());
        assert(a1.len() == a2.len());
        assert forall|i: int| 0 <= i < a1.len() implies a1[i] == a2[i] by {
            if i < a1.len() - 1 {
                assert(a1[i] == a1.drop_last()[i]);
                assert(a2[i] == a2.drop_last()[i]);
            } else {
                assert(a1[i] == a1.last());
                assert(a2[i] == a2.last());
            }
        }
        assert(a1 =~= a2);
    }
}

/// Two argument lists whose rendered arrays read the same are the
/// same list.
proof fn lemma_args_array_injective(a1: Seq<Seq<char>>, a2: Seq<Seq<char>>)
    requires
        render_args_array(a1) == render_args_array(a2),
    ensures
        a1 == a2,
{
    reveal_strlit("[]");
    reveal_strlit("[\n");
    reveal_strlit("\n      ]");
    if a1.len() == 0 && a2.len() == 0 {
        assert(a1 =~= a2);
    } else if a1.len() == 0 {
        assert(render_args_array(a1)[1] == ']');
        assert(render_args_array(a2)[1] == '\n');
        assert(false);
    } else if a2.len() == 0 {
        assert(render_args_array(a1)[1] == '\n');
        assert(render_args_array(a2)[1] == ']');
        assert(false);
    } else {
        assert(render_args_array(a1) =~= "[\n"@ + (render_args_items(a1) + "\n      ]"@));
        assert(render_args_array(a2) =~= "[\n"@ + (render_args_items(a2) + "\n      ]"@));
        lemma_strip_prefix(
            "[\n"@,
            render_args_items(a1) + "\n      ]"@,
            render_args_items(a2) + "\n      ]"@,
        );
        lemma_strip_suffix(render_args_items(a1), render_args_items(a2), "\n      ]"@);
        lemma_args_items_injective(a1, a2);
    }
}

/// Joining sequences of characters is associative.
proof fn lemma_add_assoc(a: Seq<char>, b: Seq<char>, c: Seq<char>)
    ensures
        (a + b) + c == a + (b + c),
{
    assert((a + b) + c =~= a + (b + c));
}

/// Splits off a trailing `",\n" + key + string-literal` piece: equal
/// texts of that shape agree on the text before and on the literal's
/// contents, because neither the key nor the literal holds a raw line
/// break.
proof fn lemma_peel_string_value(
    q1: Seq<char>,
    q2: Seq<char>,
    key: Seq<char>,
    s1: Seq<char>,
    s2: Seq<char>,
)
    requires
        (q1 + (",\n"@ + key)) + json_string(s1) == (q2 + (",\n"@ + key)) + json_string(s2),
        no_newline(key),
    ensures
        s1 == s2,
        q1 == q2,
{
    reveal_strlit(",\n");
    lemma_add_assoc(q1, ",\n"@, key);
    lemma_add_assoc(q2, ",\n"@, key);
    lemma_add_assoc(q1 + ",\n"@, key, json_string(s1));
    lemma_add_assoc(q2 + ",\n"@, key, json_string(s2));
    assert((q1 + ",\n"@).len() == q1.len() + 2);
    assert((q2 + ",\n"@).len() == q2.len() + 2);
    assert((q1 + ",\n"@).last() == '\n');
    assert((q2 + ",\n"@).last() == '\n');
    lemma_json_string_no_newline(s1);
    lemma_json_string_no_newline(s2);
    lemma_no_newline_concat(key, json_string(s1));
    lemma_no_newline_concat(key, json_string(s2));
    lemma_split_at_last_newline(
        q1 + ",\n"@,
        key + json_string(s1),
        q2 + ",\n"@,
        key + json_string(s2),
    );
    lemma_strip_prefix(key, json_string(s1), json_string(s2));
    lemma_json_string_injective(s1, s2);
    lemma_strip_suffix(q1, q2, ",\n"@);
}

/// The rendered document of one well-formed configuration determines
/// the values it was built from: two documents that read the same
/// carry the same program path, the same working directory and the
/// same arguments.
pub proof fn lemma_render_determines_fields(
    c1: ConfigView,
    l1: LaunchView,
    c2: ConfigView,
    l2: LaunchView,
)
    requires
        l1.configurations == seq![c1],
        config_wf(c1),
        l2.configurations == seq![c2],
        config_wf(c2),
        render_launch(l1) == render_launch(l2),
    ensures
        c1.program == c2.program,
        c1.cwd == c2.cwd,
        c1.args == c2.args,
{
    let h = "{\n  \"configurations\": [\n"@;
    let t = "\n  ]\n}"@;
    assert(render_config_items(l1.configurations) == render_config(c1));
    assert(render_config_items(l2.configurations) == render_config(c2));
    assert(render_launch(l1) == (h + render_config(c1)) + t);
    assert(render_launch(l2) == (h + render_config(c2)) + t);
    lemma_strip_suffix(h + render_config(c1), h + render_config(c2), t);
    lemma_strip_prefix(h, render_config(c1), render_config(c2));
    lemma_config_text_determines_fields(c1, c2);
}

/// The rendered text of one well-formed configuration determines the
/// program path, the working directory and the arguments.
#[verifier::rlimit(100)]
proof fn lemma_config_text_determines_fields(c1: ConfigView, c2: ConfigView)
    requires
        config_wf(c1),
        config_wf(c2),
        render_config(c1) == render_config(c2),
    ensures
        c1.program == c2.program,
        c1.cwd == c2.cwd,
        c1.args == c2.args,
{
    // The setup directives of both documents are the one fixed
    // directive, so their rendered arrays read the same.
    assert(render_setup_command(c1.setup_commands[0]) == render_setup_command(
        c2.setup_commands[0],
    ));
    assert(render_setup_array(c1.setup_commands) == render_setup_array(c2.setup_commands));

    let head1 = "    {\n      \"name\": "@ + json_string(c1.name) + ",\n      \"type\": "@
        + json_string(c1.config_type) + ",\n      \"request\": "@ + json_string(c1.request)
        + ",\n      \"args\": "@;
    let head2 = "    {\n      \"name\": "@ + json_string(c2.name) + ",\n      \"type\": "@
        + json_string(c2.config_type) + ",\n      \"request\": "@ + json_string(c2.request)
        + ",\n      \"args\": "@;
    assert(head1 == head2);

    let w1 = head1 + render_args_array(c1.args) + ",\n      \"program\": "@
        + json_string(c1.program) + ",\n      \"cwd\": "@ + json_string(c1.cwd)
        + ",\n      \"setupCommands\": "@ + render_setup_array(c1.setup_commands);
    let w2 = head2 + render_args_array(c2.args) + ",\n      \"program\": "@
        + json_string(c2.program) + ",\n      \"cwd\": "@ + json_string(c2.cwd)
        + ",\n      \"setupCommands\": "@ + render_setup_array(c2.setup_commands);
    assert(render_config(c1) == w1 + "\n    }"@);
    assert(render_config(c2) == w2 + "\n    }"@);
    lemma_strip_suffix(w1, w2, "\n    }"@);

    let u1 = head1 + render_args_array(c1.args) + ",\n      \"program\": "@
        + json_string(c1.program) + ",\n      \"cwd\": "@ + json_string(c1.cwd);
    let u2 = head2 + render_args_array(c2.args) + ",\n      \"program\": "@
        + json_string(c2.program) + ",\n      \"cwd\": "@ + json_string(c2.cwd);
    lemma_strip_suffix(
        u1 + ",\n      \"setupCommands\": "@,
        u2 + ",\n      \"setupCommands\": "@,
        render_setup_array(c1.setup_commands),
    );
    lemma_strip_suffix(u1, u2, ",\n      \"setupCommands\": "@);

    // Peel the working directory.
    let cwd_key = "      \"cwd\": "@;
    assert(",\n      \"cwd\": "@ == ",\n"@ + cwd_key) by {
        reveal_strlit(",\n      \"cwd\": ");
        reveal_strlit(",\n");
        reveal_strlit("      \"cwd\": ");
        assert(",\n      \"cwd\": "@ =~= ",\n"@ + cwd_key);
    };
    assert(no_newline(cwd_key)) by {
        reveal_strlit("      \"cwd\": ");
    };
    let q1 = head1 + render_args_array(c1.args) + ",\n      \"program\": "@
        + json_string(c1.program);
    let q2 = head2 + render_args_array(c2.args) + ",\n      \"program\": "@
        + json_string(c2.program);
    assert((q1 + (",\n"@ + cwd_key)) + json_string(c1.cwd) == u1);
    assert((q2 + (",\n"@ + cwd_key)) + json_string(c2.cwd) == u2);
    lemma_peel_string_value(q1, q2, cwd_key, c1.cwd, c2.cwd);

    // Peel the program path.
    let prog_key = "      \"program\": "@;
    assert(",\n      \"program\": "@ == ",\n"@ + prog_key) by {
        reveal_strlit(",\n      \"program\": ");
        reveal_strlit(",\n");
        reveal_strlit("      \"program\": ");
        assert(",\n      \"program\": "@ =~= ",\n"@ + prog_key);
    };
    assert(no_newline(prog_key)) by {
        reveal_strlit("      \"program\": ");
    };
    let r1 = head1 + render_args_array(c1.args);
    let r2 = head2 + render_args_array(c2.args);
    assert((r1 + (",\n"@ + prog_key)) + json_string(c1.program) == q1);
    assert((r2 + (",\n"@ + prog_key)) + json_string(c2.program) == q2);
    lemma_peel_string_value(r1, r2, prog_key, c1.program, c2.program);

    // What is left of the two documents is the argument array.
    lemma_strip_prefix(head1, render_args_array(c1.args), render_args_array(c2.args));
    lemma_args_array_injective(c1.args, c2.args);
}

/// A character that a JSON string literal carries as itself: not the
/// quote, not the backslash, not a control character.
pub open spec fn plain_char(c: char) -> bool {
    c != '"' && c != '\\' && (c as u32) >= 0x20
}

/// A sequence of plain characters is its own escaped form.
pub proof fn lemma_plain_escape(s: Seq<char>)
    requires
        forall|i: int| 0 <= i < s.len() ==> plain_char(#[trigger] s[i]),
    ensures
        escape_seq(s) == s,
    decreases s.len(),
{
    if s.len() == 0 {
        assert(escape_seq(s) =~= s);
    } else {
        lemma_plain_escape(s.drop_last());
        assert(escape_char(s.last()) == seq![s.last()]);
        assert(escape_seq(s) =~= s);
    }
}

/// When the program path holds only plain characters, the rendered
/// document carries it between quotes, letter for letter.
pub proof fn lemma_plain_program_verbatim(c: ConfigView, l: LaunchView)
    requires
        l.configurations == seq![c],
        forall|i: int| 0 <= i < c.program.len() ==> plain_char(#[trigger] c.program[i]),
    ensures
        contains_seq(render_launch(l), ",\n      \"program\": \""@ + c.program + "\""@),
{
    lemma_plain_escape(c.program);
    lemma_render_names_program_and_args(c, l);
    assert((",\n      \"program\": \""@ + c.program + "\""@) =~= (",\n      \"program\": "@
        + json_string(c.program))) by {
        reveal_strlit(",\n      \"program\": \"");
        reveal_strlit(",\n      \"program\": ");
        reveal_strlit("\"");
    };
}

/// Renders the whole launch document as indented JSON text, exactly
/// as `render_launch` states it.
pub fn launch_json_pretty(launch: &Launch) -> (r: String)
    ensures
        r@ == render_launch(launch@),
{
    let ghost view = launch@.configurations;
    let mut out = String::new();
    if launch.configurations.len() == 0 {
        out.append("{\n  \"configurations\": []\n}");
        proof {
            assert(out@ =~= render_launch(launch@));
        }
        return out;
    }
    out.append("{\n  \"configurations\": [\n");
    let mut i: usize = 0;
    while i < launch.configurations.len()
        invariant
            0 < launch.configurations.len(),
            i <= launch.configurations.len(),
            view == launch@.configurations,
            view == launch.configurations@.map_values(|c: Config| c@),
            out@ == "{\n  \"configurations\": [\n"@ + render_config_items(view.subrange(0, i as int)),
        decreases launch.configurations.len() - i,
    {
        if i > 0 {
            out.append(",\n");
        }
        append_config(&mut out, &launch.configurations[i]);
        proof {
            let prefix = view.subrange(0, i as int);
            let extended = view.subrange(0, (i + 1) as int);
            assert(extended.drop_last() =~= prefix);
            assert(extended.last() == view[i as int]);
            assert(out@ =~= "{\n  \"configurations\": [\n"@ + render_config_items(extended));
        }
        i = i + 1;
    }
    out.append("\n  ]\n}");
    proof {
        assert(view.subrange(0, launch.configurations@.len() as int) =~= view);
        assert(out@ =~= render_launch(launch@));
    }
    out
}

} // verus!
