//! What a model can read out of the context of its task: each section gives
//! its own field of the manifest back, and the files and the history are all
//! there.

use vstd::prelude::*;

use crate::context::{FileView, TaskSnapshot};
use crate::manifest::ManifestModel;
use crate::scan::{closing, element_in, elements_in, flat, is_name, passes, tag};
use crate::task::TaskStatus;

verus! {

/// A section of the context: what stands between its two tags, on lines of
/// their own.
spec fn section(indent: Seq<char>, name: Seq<char>, body: Seq<char>) -> Seq<char> {
    indent + (tag(name) + (body + (tag(closing(name)) + "\n"@)))
}

/// A line for each value, with the value escaped between two tags.
spec fn lines_of(indent: Seq<char>, item: Seq<char>, values: Seq<Seq<char>>) -> Seq<char>
    decreases values.len(),
{
    if values.len() == 0 {
        Seq::empty()
    } else {
        lines_of(indent, item, values.drop_last()) + section(
            indent,
            item,
            crate::xml::escaped(values.last()),
        )
    }
}

/// What stands in a section that lists values.
spec fn list_body(indent: Seq<char>, item: Seq<char>, values: Seq<Seq<char>>, end: Seq<char>) -> Seq<
    char,
> {
    "\n"@ + (lines_of(indent, item, values) + end)
}

/// A name of a section: it does not begin with a slash and holds no space.
spec fn is_plain(n: Seq<char>) -> bool {
    is_name(n) && n.len() > 0 && n[0] != '/' && !n.contains(' ')
}

proof fn lemma_closing_name(n: Seq<char>)
    requires
        is_plain(n),
    ensures
        is_name(closing(n)),
        closing(n)[0] == '/',
        !closing(n).contains(' '),
{
    let c = closing(n);
    assert forall|i: int| 0 <= i < c.len() implies c[i] != '<' && c[i] != '>' && c[i] != ' ' by {
        if i > 0 {
            assert(c[i] == n[i - 1]);
            assert(n.contains(n[i - 1]));
        }
    }
}

proof fn lemma_closing_differs(m: Seq<char>, n: Seq<char>)
    requires
        m != n,
    ensures
        closing(m) != closing(n),
{
    if closing(m) == closing(n) {
        assert(m =~= closing(m).skip(1));
        assert(n =~= closing(n).skip(1));
    }
}

proof fn lemma_section_passes(
    indent: Seq<char>,
    name: Seq<char>,
    body: Seq<char>,
    n: Seq<char>,
)
    requires
        !indent.contains('<'),
        is_plain(name),
        is_name(n),
        n != name,
        n != closing(name),
        passes(body, tag(n)),
    ensures
        passes(section(indent, name, body), tag(n)),
{
    reveal_strlit("\n");
    lemma_closing_name(name);
    crate::scan::lemma_passes_text(indent, tag(n));
    crate::scan::lemma_passes_other_tag(name, n);
    crate::scan::lemma_passes_other_tag(closing(name), n);
    crate::scan::lemma_passes_text("\n"@, tag(n));
    let end = tag(closing(name)) + "\n"@;
    crate::scan::lemma_passes_concat(tag(closing(name)), "\n"@, tag(n));
    crate::scan::lemma_passes_concat(body, end, tag(n));
    crate::scan::lemma_passes_concat(tag(name), body + end, tag(n));
    crate::scan::lemma_passes_concat(indent, tag(name) + (body + end), tag(n));
}

proof fn lemma_lines_pass(
    indent: Seq<char>,
    item: Seq<char>,
    values: Seq<Seq<char>>,
    n: Seq<char>,
)
    requires
        !indent.contains('<'),
        is_plain(item),
        is_name(n),
        n != item,
        n != closing(item),
    ensures
        passes(lines_of(indent, item, values), tag(n)),
    decreases values.len(),
{
    if values.len() > 0 {
        lemma_lines_pass(indent, item, values.drop_last(), n);
        let value = crate::xml::escaped(values.last());
        crate::xml::lemma_escaped_is_inert(values.last());
        crate::scan::lemma_passes_text(value, tag(n));
        lemma_section_passes(indent, item, value, n);
        crate::scan::lemma_passes_concat(
            lines_of(indent, item, values.drop_last()),
            section(indent, item, value),
            tag(n),
        );
    } else {
        assert(lines_of(indent, item, values).len() == 0);
    }
}

proof fn lemma_list_passes(
    indent: Seq<char>,
    item: Seq<char>,
    values: Seq<Seq<char>>,
    end: Seq<char>,
    n: Seq<char>,
)
    requires
        !indent.contains('<'),
        !end.contains('<'),
        is_plain(item),
        is_name(n),
        n != item,
        n != closing(item),
    ensures
        passes(list_body(indent, item, values, end), tag(n)),
{
    reveal_strlit("\n");
    lemma_lines_pass(indent, item, values, n);
    crate::scan::lemma_passes_text("\n"@, tag(n));
    crate::scan::lemma_passes_text(end, tag(n));
    crate::scan::lemma_passes_concat(lines_of(indent, item, values), end, tag(n));
    crate::scan::lemma_passes_concat("\n"@, lines_of(indent, item, values) + end, tag(n));
}

/// The values of a list are read back, and then what follows.
proof fn lemma_lines_read(
    indent: Seq<char>,
    item: Seq<char>,
    values: Seq<Seq<char>>,
    rest: Seq<char>,
)
    requires
        !indent.contains('<'),
        is_plain(item),
    ensures
        elements_in(lines_of(indent, item, values) + rest, item) == values + elements_in(
            rest,
            item,
        ),
    decreases values.len(),
{
    let all = lines_of(indent, item, values);
    if values.len() == 0 {
        assert(all + rest =~= rest);
        assert(values + elements_in(rest, item) =~= elements_in(rest, item));
    } else {
        let value = values.last();
        let line = section(indent, item, crate::xml::escaped(value));
        let more = "\n"@ + rest;
        assert(all + rest =~= lines_of(indent, item, values.drop_last()) + (line + rest));
        lemma_lines_read(indent, item, values.drop_last(), line + rest);
        crate::scan::lemma_passes_text(indent, tag(item));
        assert(line + rest =~= indent + (tag(item) + (crate::xml::escaped(value) + (tag(
            closing(item),
        ) + more))));
        crate::scan::lemma_elements_step(indent, item, value, more);
        reveal_strlit("\n");
        crate::scan::lemma_passes_text("\n"@, tag(item));
        lemma_elements_passed("\n"@, rest, item);
        assert(values.drop_last() + (seq![value] + elements_in(rest, item)) =~= values
            + elements_in(rest, item));
    }
}

/// Text without `<` in front changes nothing of what is read.
proof fn lemma_elements_passed(x: Seq<char>, rest: Seq<char>, item: Seq<char>)
    requires
        passes(x, tag(item)),
    ensures
        elements_in(x + rest, item) == elements_in(rest, item),
{
    crate::scan::lemma_behind_passed(x, rest, tag(item));
    if let Some(r) = crate::scan::behind(rest, tag(item)) {
        crate::text::lemma_find_from(rest, tag(item), 0);
        crate::text::lemma_find_from(r, tag(closing(item)), 0);
        if let Some(more) = crate::scan::behind(r, tag(closing(item))) {
            assert(r.len() < rest.len());
            assert(more.len() < rest.len());
        }
    }
}

proof fn lemma_list_read(
    indent: Seq<char>,
    item: Seq<char>,
    values: Seq<Seq<char>>,
    end: Seq<char>,
)
    requires
        !indent.contains('<'),
        !end.contains('<'),
        is_plain(item),
    ensures
        elements_in(list_body(indent, item, values, end), item) == values,
{
    reveal_strlit("\n");
    crate::scan::lemma_passes_text("\n"@, tag(item));
    lemma_elements_passed("\n"@, lines_of(indent, item, values) + end, item);
    lemma_lines_read(indent, item, values, end);
    crate::scan::lemma_no_elements(end, item);
    assert(values + Seq::<Seq<char>>::empty() =~= values);
}

/// The opening tag of a file: its name, its path, and that it was cut.
spec fn file_tag(f: FileView) -> Seq<char> {
    "file path=\""@ + (crate::xml::escaped(f.path) + ("\""@ + (if f.truncated {
        " truncated=\"true\""@
    } else {
        ""@
    })))
}

/// What stands in the element of a file.
spec fn file_body(f: FileView) -> Seq<char> {
    crate::xml::escaped(f.content) + (if f.truncated {
        "\n[TRUNCATED]"@
    } else {
        ""@
    })
}

proof fn lemma_file_tag(f: FileView)
    ensures
        is_name(file_tag(f)),
        file_tag(f).contains(' '),
        !file_body(f).contains('<'),
        crate::context::file_element(f) == "    "@ + (tag(file_tag(f)) + (file_body(f) + (tag(
            closing("file"@),
        ) + "\n"@))),
{
    reveal_strlit("file path=\"");
    reveal_strlit("\"");
    reveal_strlit(" truncated=\"true\"");
    reveal_strlit("");
    reveal_strlit("\n[TRUNCATED]");
    reveal_strlit("    ");
    reveal_strlit("    <file path=\"");
    reveal_strlit(">");
    reveal_strlit("</file>\n");
    reveal_strlit("file");
    reveal_strlit("\n");
    let t = file_tag(f);
    let path = crate::xml::escaped(f.path);
    let content = crate::xml::escaped(f.content);
    crate::xml::lemma_escaped_is_inert(f.path);
    crate::xml::lemma_escaped_is_inert(f.content);
    let n = "file path=\""@.len();
    assert(t[4] == ' ');
    assert forall|i: int| 0 <= i < t.len() implies t[i] != '<' && t[i] != '>' by {
        if n <= i < n + path.len() {
            assert(t[i] == path[i - n]);
            assert(path.contains(path[i - n]));
        } else if i < n {
            assert(t[i] == "file path=\""@[i]);
        } else {
            let k = i - n - path.len();
            if f.truncated {
                assert(t[i] == ("\""@ + " truncated=\"true\""@)[k]);
            } else {
                assert(t[i] == ("\""@ + ""@)[k]);
            }
        }
    }
    let body = file_body(f);
    assert forall|i: int| 0 <= i < body.len() implies body[i] != '<' by {
        if i < content.len() {
            assert(content.contains(content[i]));
        } else if f.truncated {
            assert(body[i] == "\n[TRUNCATED]"@[i - content.len()]);
        }
    }
    assert("    <file path=\""@ =~= "    "@ + (seq!['<'] + "file path=\""@));
    assert("</file>\n"@ =~= tag(closing("file"@)) + "\n"@);
    assert(">"@ =~= seq!['>']);
    assert(crate::context::file_element(f) =~= "    "@ + (tag(file_tag(f)) + (file_body(f) + (tag(
        closing("file"@),
    ) + "\n"@))));
}

proof fn lemma_files_pass(files: Seq<FileView>, n: Seq<char>)
    requires
        is_name(n),
        !n.contains(' '),
        n != closing("file"@),
    ensures
        passes(crate::context::file_elements(files), tag(n)),
    decreases files.len(),
{
    reveal_strlit("    ");
    reveal_strlit("\n");
    reveal_strlit("file");
    if files.len() > 0 {
        let f = files.last();
        lemma_files_pass(files.drop_last(), n);
        lemma_file_tag(f);
        assert(is_name(closing("file"@)));
        crate::scan::lemma_passes_text("    "@, tag(n));
        crate::scan::lemma_passes_other_tag(file_tag(f), n);
        crate::scan::lemma_passes_text(file_body(f), tag(n));
        crate::scan::lemma_passes_other_tag(closing("file"@), n);
        crate::scan::lemma_passes_text("\n"@, tag(n));
        let end = tag(closing("file"@)) + "\n"@;
        crate::scan::lemma_passes_concat(tag(closing("file"@)), "\n"@, tag(n));
        crate::scan::lemma_passes_concat(file_body(f), end, tag(n));
        crate::scan::lemma_passes_concat(tag(file_tag(f)), file_body(f) + end, tag(n));
        crate::scan::lemma_passes_concat(
            "    "@,
            tag(file_tag(f)) + (file_body(f) + end),
            tag(n),
        );
        crate::scan::lemma_passes_concat(
            crate::context::file_elements(files.drop_last()),
            crate::context::file_element(f),
            tag(n),
        );
    } else {
        assert(crate::context::file_elements(files).len() == 0);
    }
}

/// A file as a reader finds it.
pub ghost struct ShownFile {
    pub path: Seq<char>,
    pub content: Seq<char>,
    pub truncated: bool,
}

/// The files that a text shows: each element `<file path="..">`, with what
/// stands in it, and whether it is marked as cut.
pub open spec fn files_in(s: Seq<char>) -> Seq<ShownFile>
    decreases s.len(),
{
    match crate::scan::behind(s, "<file path=\""@) {
        None => Seq::empty(),
        Some(a) => match (crate::scan::in_front(a, "\""@), crate::scan::behind(a, "\""@)) {
            (Some(path), Some(b)) => match (
                crate::scan::in_front(b, ">"@),
                crate::scan::behind(b, ">"@),
            ) {
                (Some(marks), Some(c)) => match (
                    crate::scan::in_front(c, "</file>"@),
                    crate::scan::behind(c, "</file>"@),
                ) {
                    (Some(body), Some(more)) => if more.len() < s.len() {
                        seq![
                            ShownFile {
                                path: crate::xml::unescaped(path),
                                content: crate::xml::unescaped(body),
                                truncated: marks == " truncated=\"true\""@,
                            },
                        ] + files_in(more)
                    } else {
                        Seq::empty()
                    },
                    _ => Seq::empty(),
                },
                _ => Seq::empty(),
            },
            _ => Seq::empty(),
        },
    }
}

/// What is to be seen of a file: its path, and its contents with a mark at
/// their end where they were cut.
pub open spec fn shown(f: FileView) -> ShownFile {
    ShownFile {
        path: f.path,
        content: if f.truncated {
            f.content + "\n[TRUNCATED]"@
        } else {
            f.content
        },
        truncated: f.truncated,
    }
}

proof fn lemma_escaped_plain(a: Seq<char>, b: Seq<char>)
    requires
        forall|i: int| 0 <= i < b.len() ==> crate::xml::escape_char(#[trigger] b[i]) == seq![b[i]],
    ensures
        crate::xml::escaped(a + b) == crate::xml::escaped(a) + b,
    decreases b.len(),
{
    if b.len() == 0 {
        assert(a + b =~= a);
        assert(crate::xml::escaped(a) + b =~= crate::xml::escaped(a));
    } else {
        let less = b.drop_last();
        assert forall|i: int| 0 <= i < less.len() implies crate::xml::escape_char(#[trigger] less[i])
            == seq![less[i]] by {
            assert(less[i] == b[i]);
        }
        lemma_escaped_plain(a, less);
        assert((a + b).drop_last() =~= a + less);
        assert(crate::xml::escape_char(b[b.len() - 1]) == seq![b[b.len() - 1]]);
        assert(crate::xml::escaped(a) + less + seq![b.last()] =~= crate::xml::escaped(a) + b);
    }
}

proof fn lemma_file_body_read(f: FileView)
    ensures
        crate::xml::unescaped(file_body(f)) == shown(f).content,
{
    reveal_strlit("");
    reveal_strlit("\n[TRUNCATED]");
    let mark = "\n[TRUNCATED]"@;
    if f.truncated {
        assert forall|i: int| 0 <= i < mark.len() implies crate::xml::escape_char(
            #[trigger] mark[i],
        ) == seq![mark[i]] by {
        }
        lemma_escaped_plain(f.content, mark);
        crate::xml::lemma_escape_round_trip(f.content + mark);
    } else {
        assert(file_body(f) =~= crate::xml::escaped(f.content));
        crate::xml::lemma_escape_round_trip(f.content);
    }
}

/// What marks the opening tag of a file.
spec fn marks_of(f: FileView) -> Seq<char> {
    if f.truncated {
        " truncated=\"true\""@
    } else {
        ""@
    }
}

proof fn lemma_file_shape(f: FileView, rest: Seq<char>)
    ensures
        crate::context::file_element(f) + rest == "    "@ + ("<file path=\""@ + (
        crate::xml::escaped(f.path) + ("\""@ + (marks_of(f) + (">"@ + (file_body(f) + ("</file>"@ + (
        "\n"@ + rest)))))))),
{
    reveal_strlit("<file path=\"");
    reveal_strlit("file path=\"");
    reveal_strlit(">");
    reveal_strlit("</file>");
    reveal_strlit("file");
    lemma_file_tag(f);
    assert(tag(closing("file"@)) =~= "</file>"@);
    assert(">"@ =~= seq!['>']);
    assert("<file path=\""@ =~= seq!['<'] + "file path=\""@);
    let path = crate::xml::escaped(f.path);
    assert(tag(file_tag(f)) =~= "<file path=\""@ + (path + ("\""@ + (marks_of(f) + ">"@))));
    assert(crate::context::file_element(f) + rest =~= "    "@ + ("<file path=\""@ + (path + ("\""@ + (
    marks_of(f) + (">"@ + (file_body(f) + ("</file>"@ + ("\n"@ + rest)))))))));
}

proof fn lemma_file_step(
    path: Seq<char>,
    marks: Seq<char>,
    body: Seq<char>,
    more: Seq<char>,
)
    requires
        !path.contains('"'),
        !marks.contains('>'),
        !body.contains('<'),
    ensures
        files_in(
            "    "@ + ("<file path=\""@ + (path + ("\""@ + (marks + (">"@ + (body + ("</file>"@
                + more))))))),
        ) == seq![
            ShownFile {
                path: crate::xml::unescaped(path),
                content: crate::xml::unescaped(body),
                truncated: marks == " truncated=\"true\""@,
            },
        ] + files_in(more),
{
    reveal_strlit("    ");
    reveal_strlit("<file path=\"");
    reveal_strlit("\"");
    reveal_strlit(">");
    reveal_strlit("</file>");
    let c = body + ("</file>"@ + more);
    let b = marks + (">"@ + c);
    let a = path + ("\""@ + b);
    crate::scan::lemma_passes_text("    "@, "<file path=\""@);
    crate::scan::lemma_split_at("    "@, "<file path=\""@, a);
    crate::scan::lemma_passes_char(path, "\""@);
    crate::scan::lemma_split_at(path, "\""@, b);
    crate::scan::lemma_passes_char(marks, ">"@);
    crate::scan::lemma_split_at(marks, ">"@, c);
    crate::scan::lemma_passes_text(body, "</file>"@);
    crate::scan::lemma_split_at(body, "</file>"@, more);
}

proof fn lemma_file_read(f: FileView, rest: Seq<char>)
    ensures
        files_in(crate::context::file_element(f) + rest) == seq![shown(f)] + files_in(
            "\n"@ + rest,
        ),
{
    reveal_strlit("");
    reveal_strlit(" truncated=\"true\"");
    let marks = marks_of(f);
    lemma_file_tag(f);
    lemma_file_body_read(f);
    lemma_file_shape(f, rest);
    crate::xml::lemma_escaped_is_inert(f.path);
    crate::xml::lemma_escape_round_trip(f.path);
    assert(!marks.contains('>'));
    assert((marks == " truncated=\"true\""@) == f.truncated) by {
        assert(""@.len() == 0);
    }
    lemma_file_step(crate::xml::escaped(f.path), marks, file_body(f), "\n"@ + rest);
}

proof fn lemma_files_in_passed(x: Seq<char>, rest: Seq<char>)
    requires
        !x.contains('<'),
    ensures
        files_in(x + rest) == files_in(rest),
{
    reveal_strlit("<file path=\"");
    reveal_strlit("\"");
    reveal_strlit(">");
    reveal_strlit("</file>");
    crate::scan::lemma_passes_text(x, "<file path=\""@);
    crate::scan::lemma_behind_passed(x, rest, "<file path=\""@);
    crate::text::lemma_find_from(rest, "<file path=\""@, 0);
    if let Some(a) = crate::scan::behind(rest, "<file path=\""@) {
        crate::text::lemma_find_from(a, "\""@, 0);
        if let Some(b) = crate::scan::behind(a, "\""@) {
            crate::text::lemma_find_from(b, ">"@, 0);
            if let Some(c) = crate::scan::behind(b, ">"@) {
                crate::text::lemma_find_from(c, "</file>"@, 0);
            }
        }
    }
}

proof fn lemma_files_read(files: Seq<FileView>, rest: Seq<char>)
    ensures
        files_in(crate::context::file_elements(files) + rest) == files.map_values(
            |f: FileView| shown(f),
        ) + files_in(rest),
    decreases files.len(),
{
    let all = crate::context::file_elements(files);
    let read = files.map_values(|f: FileView| shown(f));
    if files.len() == 0 {
        assert(all + rest =~= rest);
        assert(read + files_in(rest) =~= files_in(rest));
    } else {
        let f = files.last();
        let less = files.drop_last();
        let element = crate::context::file_element(f);
        assert(all + rest =~= crate::context::file_elements(less) + (element + rest));
        lemma_files_read(less, element + rest);
        lemma_file_read(f, rest);
        reveal_strlit("\n");
        lemma_files_in_passed("\n"@, rest);
        assert(less.map_values(|f: FileView| shown(f)) + (seq![shown(f)] + files_in(rest))
            =~= read + files_in(rest));
    }
}

/// The pieces of a context, each a line or a section.
spec fn pieces(
    m: ManifestModel,
    status: TaskStatus,
    files: Seq<FileView>,
    history: Seq<Seq<char>>,
) -> Seq<Seq<char>> {
    Seq::empty().push("<task_context>\n"@).push("  <system_manifest>\n"@).push(
        section("    "@, "status"@, crate::xml::escaped(crate::task::status_text(status))),
    ).push(
        section("    "@, "token_limit"@, crate::text::decimal(m.token_limit as nat)),
    ).push(section("    "@, "max_steps"@, crate::text::decimal(m.max_steps as nat))).push(
        section("    "@, "timeout_ms"@, crate::text::decimal(m.timeout_ms as nat)),
    ).push(
        section("    "@, "allow_read"@, list_body("      "@, "path"@, m.allow_read, "    "@)),
    ).push(
        section("    "@, "allow_write"@, list_body("      "@, "path"@, m.allow_write, "    "@)),
    ).push(
        section(
            "    "@,
            "mandatory_artifacts"@,
            list_body("      "@, "path"@, m.mandatory_artifacts, "    "@),
        ),
    ).push(
        section("    "@, "allow_exec"@, list_body("      "@, "command"@, m.allow_exec, "    "@)),
    ).push(
        section(
            "    "@,
            "test_commands"@,
            list_body("      "@, "command"@, m.test_commands, "    "@),
        ),
    ).push("  </system_manifest>\n"@).push(
        section(
            "  "@,
            "environment_files"@,
            "\n"@ + (crate::context::file_elements(files) + "  "@),
        ),
    ).push(
        section("  "@, "execution_history"@, list_body("    "@, "event"@, history, "  "@)),
    ).push("</task_context>\n"@)
}

proof fn lemma_flat_push(p: Seq<Seq<char>>, x: Seq<char>)
    ensures
        flat(p.push(x)) == flat(p) + x,
{
    assert(p.push(x).drop_last() =~= p);
}

proof fn lemma_path_lines(paths: Seq<Seq<char>>)
    ensures
        crate::context::path_lines(paths) == lines_of("      "@, "path"@, paths),
    decreases paths.len(),
{
    reveal_strlit("      ");
    reveal_strlit("path");
    reveal_strlit("\n");
    reveal_strlit("      <path>");
    reveal_strlit("</path>\n");
    if paths.len() > 0 {
        lemma_path_lines(paths.drop_last());
        let v = crate::xml::escaped(paths.last());
        assert("      <path>"@ =~= "      "@ + tag("path"@));
        assert("</path>\n"@ =~= tag(closing("path"@)) + "\n"@);
        assert("      <path>"@ + v + "</path>\n"@ =~= section("      "@, "path"@, v));
    }
}

proof fn lemma_command_lines(commands: Seq<Seq<char>>)
    ensures
        crate::context::command_lines(commands) == lines_of("      "@, "command"@, commands),
    decreases commands.len(),
{
    reveal_strlit("      ");
    reveal_strlit("command");
    reveal_strlit("\n");
    reveal_strlit("      <command>");
    reveal_strlit("</command>\n");
    if commands.len() > 0 {
        lemma_command_lines(commands.drop_last());
        let v = crate::xml::escaped(commands.last());
        assert("      <command>"@ =~= "      "@ + tag("command"@));
        assert("</command>\n"@ =~= tag(closing("command"@)) + "\n"@);
        assert("      <command>"@ + v + "</command>\n"@ =~= section("      "@, "command"@, v));
    }
}

proof fn lemma_event_lines(events: Seq<Seq<char>>)
    ensures
        crate::context::event_lines(events) == lines_of("    "@, "event"@, events),
    decreases events.len(),
{
    reveal_strlit("    ");
    reveal_strlit("event");
    reveal_strlit("\n");
    reveal_strlit("    <event>");
    reveal_strlit("</event>\n");
    if events.len() > 0 {
        lemma_event_lines(events.drop_last());
        let v = crate::xml::escaped(events.last());
        assert("    <event>"@ =~= "    "@ + tag("event"@));
        assert("</event>\n"@ =~= tag(closing("event"@)) + "\n"@);
        assert("    <event>"@ + v + "</event>\n"@ =~= section("    "@, "event"@, v));
    }
}

proof fn lemma_path_list_section(name: Seq<char>, paths: Seq<Seq<char>>)
    ensures
        crate::context::path_list(name, paths) == section(
            "    "@,
            name,
            list_body("      "@, "path"@, paths, "    "@),
        ),
{
    reveal_strlit("    <");
    reveal_strlit(">\n");
    reveal_strlit("    </");
    reveal_strlit("    ");
    reveal_strlit("\n");
    lemma_path_lines(paths);
    let lines = lines_of("      "@, "path"@, paths);
    assert("    <"@ + name + ">\n"@ =~= "    "@ + tag(name) + "\n"@);
    assert("    </"@ + name + ">\n"@ =~= "    "@ + tag(closing(name)) + "\n"@);
    assert(crate::context::path_list(name, paths) =~= section(
        "    "@,
        name,
        list_body("      "@, "path"@, paths, "    "@),
    ));
}

/// A section made of an opening line, its lines and a closing line.
proof fn lemma_lined_section(
    x: Seq<char>,
    indent: Seq<char>,
    name: Seq<char>,
    opening: Seq<char>,
    lines: Seq<char>,
    ending: Seq<char>,
)
    requires
        opening == indent + (tag(name) + "\n"@),
        ending == indent + (tag(closing(name)) + "\n"@),
    ensures
        x + opening + lines + ending == x + section(indent, name, "\n"@ + (lines + indent)),
{
    assert(x + opening + lines + ending =~= x + section(indent, name, "\n"@ + (lines + indent)));
}

proof fn lemma_limit_section(name: Seq<char>, opening: Seq<char>, body: Seq<char>, ending: Seq<char>)
    requires
        opening == "    "@ + tag(name),
        ending == tag(closing(name)) + "\n"@,
    ensures
        opening + body + ending == section("    "@, name, body),
{
    assert(opening + body + ending =~= section("    "@, name, body));
}

proof fn lemma_limits_flat(x: Seq<char>, m: ManifestModel, status: TaskStatus)
    ensures
        x + crate::context::limit_lines(m, status) == x + section(
            "    "@,
            "status"@,
            crate::xml::escaped(crate::task::status_text(status)),
        ) + section("    "@, "token_limit"@, crate::text::decimal(m.token_limit as nat)) + section(
            "    "@,
            "max_steps"@,
            crate::text::decimal(m.max_steps as nat),
        ) + section("    "@, "timeout_ms"@, crate::text::decimal(m.timeout_ms as nat)),
{
    reveal_strlit("    ");
    reveal_strlit("\n");
    reveal_strlit("status");
    reveal_strlit("    <status>");
    reveal_strlit("</status>\n");
    reveal_strlit("token_limit");
    reveal_strlit("    <token_limit>");
    reveal_strlit("</token_limit>\n");
    reveal_strlit("max_steps");
    reveal_strlit("    <max_steps>");
    reveal_strlit("</max_steps>\n");
    reveal_strlit("timeout_ms");
    reveal_strlit("    <timeout_ms>");
    reveal_strlit("</timeout_ms>\n");
    assert("    <status>"@ =~= "    "@ + tag("status"@));
    assert("</status>\n"@ =~= tag(closing("status"@)) + "\n"@);
    assert("    <token_limit>"@ =~= "    "@ + tag("token_limit"@));
    assert("</token_limit>\n"@ =~= tag(closing("token_limit"@)) + "\n"@);
    assert("    <max_steps>"@ =~= "    "@ + tag("max_steps"@));
    assert("</max_steps>\n"@ =~= tag(closing("max_steps"@)) + "\n"@);
    assert("    <timeout_ms>"@ =~= "    "@ + tag("timeout_ms"@));
    assert("</timeout_ms>\n"@ =~= tag(closing("timeout_ms"@)) + "\n"@);
    let a = crate::xml::escaped(crate::task::status_text(status));
    let b = crate::text::decimal(m.token_limit as nat);
    let c = crate::text::decimal(m.max_steps as nat);
    let d = crate::text::decimal(m.timeout_ms as nat);
    lemma_limit_section("status"@, "    <status>"@, a, "</status>\n"@);
    lemma_limit_section("token_limit"@, "    <token_limit>"@, b, "</token_limit>\n"@);
    lemma_limit_section("max_steps"@, "    <max_steps>"@, c, "</max_steps>\n"@);
    lemma_limit_section("timeout_ms"@, "    <timeout_ms>"@, d, "</timeout_ms>\n"@);
    let sa = section("    "@, "status"@, a);
    let sb = section("    "@, "token_limit"@, b);
    let sc = section("    "@, "max_steps"@, c);
    let sd = section("    "@, "timeout_ms"@, d);
    assert(x + (sa + sb + sc + sd) =~= x + sa + sb + sc + sd);
}

/// A context is its pieces, one behind the other.
proof fn lemma_context_flat(
    m: ManifestModel,
    status: TaskStatus,
    files: Seq<FileView>,
    history: Seq<Seq<char>>,
)
    ensures
        crate::context::context_xml(m, status, files, history) == flat(
            pieces(m, status, files, history),
        ),
{
    let e = Seq::<Seq<char>>::empty();
    let p1 = e.push("<task_context>\n"@);
    let p2 = p1.push("  <system_manifest>\n"@);
    let p3 = p2.push(
        section("    "@, "status"@, crate::xml::escaped(crate::task::status_text(status))),
    );
    let p4 = p3.push(section("    "@, "token_limit"@, crate::text::decimal(m.token_limit as nat)));
    let p5 = p4.push(section("    "@, "max_steps"@, crate::text::decimal(m.max_steps as nat)));
    let p6 = p5.push(section("    "@, "timeout_ms"@, crate::text::decimal(m.timeout_ms as nat)));
    let read = section("    "@, "allow_read"@, list_body("      "@, "path"@, m.allow_read, "    "@));
    let write = section(
        "    "@,
        "allow_write"@,
        list_body("      "@, "path"@, m.allow_write, "    "@),
    );
    let artifacts = section(
        "    "@,
        "mandatory_artifacts"@,
        list_body("      "@, "path"@, m.mandatory_artifacts, "    "@),
    );
    let exec = section(
        "    "@,
        "allow_exec"@,
        list_body("      "@, "command"@, m.allow_exec, "    "@),
    );
    let tests = section(
        "    "@,
        "test_commands"@,
        list_body("      "@, "command"@, m.test_commands, "    "@),
    );
    let shown = section(
        "  "@,
        "environment_files"@,
        "\n"@ + (crate::context::file_elements(files) + "  "@),
    );
    let past = section("  "@, "execution_history"@, list_body("    "@, "event"@, history, "  "@));
    let p7 = p6.push(read);
    let p8 = p7.push(write);
    let p9 = p8.push(artifacts);
    let p10 = p9.push(exec);
    let p11 = p10.push(tests);
    let p12 = p11.push("  </system_manifest>\n"@);
    let p13 = p12.push(shown);
    let p14 = p13.push(past);
    lemma_flat_push(e, "<task_context>\n"@);
    lemma_flat_push(p1, "  <system_manifest>\n"@);
    lemma_flat_push(
        p2,
        section("    "@, "status"@, crate::xml::escaped(crate::task::status_text(status))),
    );
    lemma_flat_push(
        p3,
        section("    "@, "token_limit"@, crate::text::decimal(m.token_limit as nat)),
    );
    lemma_flat_push(
        p4,
        section("    "@, "max_steps"@, crate::text::decimal(m.max_steps as nat)),
    );
    lemma_flat_push(
        p5,
        section("    "@, "timeout_ms"@, crate::text::decimal(m.timeout_ms as nat)),
    );
    lemma_flat_push(p6, read);
    lemma_flat_push(p7, write);
    lemma_flat_push(p8, artifacts);
    lemma_flat_push(p9, exec);
    lemma_flat_push(p10, tests);
    lemma_flat_push(p11, "  </system_manifest>\n"@);
    lemma_flat_push(p12, shown);
    lemma_flat_push(p13, past);
    lemma_flat_push(p14, "</task_context>\n"@);
    assert(flat(p1) =~= "<task_context>\n"@);
    let x2 = "<task_context>\n"@ + "  <system_manifest>\n"@;
    lemma_limits_flat(x2, m, status);
    assert(flat(p6) == x2 + crate::context::limit_lines(m, status));
    lemma_path_list_section("allow_read"@, m.allow_read);
    lemma_path_list_section("allow_write"@, m.allow_write);
    lemma_path_list_section("mandatory_artifacts"@, m.mandatory_artifacts);
    lemma_command_lines(m.allow_exec);
    lemma_command_lines(m.test_commands);
    lemma_event_lines(history);
    lemma_line_literals();
    lemma_lined_section(
        flat(p9),
        "    "@,
        "allow_exec"@,
        "    <allow_exec>\n"@,
        crate::context::command_lines(m.allow_exec),
        "    </allow_exec>\n"@,
    );
    lemma_lined_section(
        flat(p10),
        "    "@,
        "test_commands"@,
        "    <test_commands>\n"@,
        crate::context::command_lines(m.test_commands),
        "    </test_commands>\n"@,
    );
    lemma_lined_section(
        flat(p12),
        "  "@,
        "environment_files"@,
        "  <environment_files>\n"@,
        crate::context::file_elements(files),
        "  </environment_files>\n"@,
    );
    lemma_lined_section(
        flat(p13),
        "  "@,
        "execution_history"@,
        "  <execution_history>\n"@,
        crate::context::event_lines(history),
        "  </execution_history>\n"@,
    );
}

proof fn lemma_line_literals()
    ensures
        "    <allow_exec>\n"@ == "    "@ + (tag("allow_exec"@) + "\n"@),
        "    </allow_exec>\n"@ == "    "@ + (tag(closing("allow_exec"@)) + "\n"@),
        "    <test_commands>\n"@ == "    "@ + (tag("test_commands"@) + "\n"@),
        "    </test_commands>\n"@ == "    "@ + (tag(closing("test_commands"@)) + "\n"@),
        "  <environment_files>\n"@ == "  "@ + (tag("environment_files"@) + "\n"@),
        "  </environment_files>\n"@ == "  "@ + (tag(closing("environment_files"@)) + "\n"@),
        "  <execution_history>\n"@ == "  "@ + (tag("execution_history"@) + "\n"@),
        "  </execution_history>\n"@ == "  "@ + (tag(closing("execution_history"@)) + "\n"@),
{
    reveal_strlit("    ");
    reveal_strlit("  ");
    reveal_strlit("\n");
    reveal_strlit("allow_exec");
    reveal_strlit("test_commands");
    reveal_strlit("environment_files");
    reveal_strlit("execution_history");
    reveal_strlit("    <allow_exec>\n");
    reveal_strlit("    </allow_exec>\n");
    reveal_strlit("    <test_commands>\n");
    reveal_strlit("    </test_commands>\n");
    reveal_strlit("  <environment_files>\n");
    reveal_strlit("  </environment_files>\n");
    reveal_strlit("  <execution_history>\n");
    reveal_strlit("  </execution_history>\n");
    assert("    <allow_exec>\n"@ =~= "    "@ + (tag("allow_exec"@) + "\n"@));
    assert("    </allow_exec>\n"@ =~= "    "@ + (tag(closing("allow_exec"@)) + "\n"@));
    assert("    <test_commands>\n"@ =~= "    "@ + (tag("test_commands"@) + "\n"@));
    assert("    </test_commands>\n"@ =~= "    "@ + (tag(closing("test_commands"@)) + "\n"@));
    assert("  <environment_files>\n"@ =~= "  "@ + (tag("environment_files"@) + "\n"@));
    assert("  </environment_files>\n"@ =~= "  "@ + (tag(closing("environment_files"@)) + "\n"@));
    assert("  <execution_history>\n"@ =~= "  "@ + (tag("execution_history"@) + "\n"@));
    assert("  </execution_history>\n"@ =~= "  "@ + (tag(closing("execution_history"@)) + "\n"@));
}

proof fn lemma_decimal_is_text(n: nat)
    ensures
        !crate::text::decimal(n).contains('<'),
{
    crate::text::lemma_decimal_reads_back(n);
    let s = crate::text::decimal(n);
    if s.contains('<') {
        let i = choose|i: int| 0 <= i < s.len() && s[i] == '<';
        assert(s[i] <= '9');
    }
}

/// The name of the section or the tag that a piece is.
spec fn name_at(k: int) -> Seq<char> {
    if k == 0 {
        "task_context"@
    } else if k == 1 {
        "system_manifest"@
    } else if k == 2 {
        "status"@
    } else if k == 3 {
        "token_limit"@
    } else if k == 4 {
        "max_steps"@
    } else if k == 5 {
        "timeout_ms"@
    } else if k == 6 {
        "allow_read"@
    } else if k == 7 {
        "allow_write"@
    } else if k == 8 {
        "mandatory_artifacts"@
    } else if k == 9 {
        "allow_exec"@
    } else if k == 10 {
        "test_commands"@
    } else if k == 11 {
        "system_manifest"@
    } else if k == 12 {
        "environment_files"@
    } else {
        "execution_history"@
    }
}

/// The sizes of the names, and the characters by which names of one size
/// differ.
proof fn lemma_name_sizes()
    ensures
        "task_context"@.len() == 12,
        "system_manifest"@.len() == 15,
        "status"@.len() == 6,
        "token_limit"@.len() == 11 && "token_limit"@[0] == 't',
        "max_steps"@.len() == 9,
        "timeout_ms"@.len() == 10 && "timeout_ms"@[0] == 't',
        "allow_read"@.len() == 10 && "allow_read"@[0] == 'a' && "allow_read"@[6] == 'r',
        "allow_write"@.len() == 11 && "allow_write"@[0] == 'a',
        "mandatory_artifacts"@.len() == 19,
        "allow_exec"@.len() == 10 && "allow_exec"@[0] == 'a' && "allow_exec"@[6] == 'e',
        "test_commands"@.len() == 13,
        "environment_files"@.len() == 17 && "environment_files"@[1] == 'n',
        "execution_history"@.len() == 17 && "execution_history"@[1] == 'x',
        "path"@.len() == 4 && "path"@[0] == 'p',
        "file"@.len() == 4 && "file"@[0] == 'f',
        "command"@.len() == 7,
        "event"@.len() == 5,
{
    reveal_strlit("task_context");
    reveal_strlit("system_manifest");
    reveal_strlit("status");
    reveal_strlit("token_limit");
    reveal_strlit("max_steps");
    reveal_strlit("timeout_ms");
    reveal_strlit("allow_read");
    reveal_strlit("allow_write");
    reveal_strlit("mandatory_artifacts");
    reveal_strlit("allow_exec");
    reveal_strlit("test_commands");
    reveal_strlit("environment_files");
    reveal_strlit("execution_history");
    reveal_strlit("path");
    reveal_strlit("file");
    reveal_strlit("command");
    reveal_strlit("event");
}

proof fn lemma_name_is_plain(k: int)
    ensures
        is_plain(name_at(k)),
{
    reveal_strlit("task_context");
    reveal_strlit("system_manifest");
    reveal_strlit("status");
    reveal_strlit("token_limit");
    reveal_strlit("max_steps");
    reveal_strlit("timeout_ms");
    reveal_strlit("allow_read");
    reveal_strlit("allow_write");
    reveal_strlit("mandatory_artifacts");
    reveal_strlit("allow_exec");
    reveal_strlit("test_commands");
    reveal_strlit("environment_files");
    reveal_strlit("execution_history");
    lemma_plain_chars(name_at(k));
}

proof fn lemma_name_is_no_item(k: int)
    ensures
        name_at(k) != "path"@,
        name_at(k) != "command"@,
        name_at(k) != "event"@,
        name_at(k) != "file"@,
{
    lemma_name_sizes();
}

proof fn lemma_names_differ(i: int, k: int)
    requires
        0 <= i < k < 14,
        2 <= k,
        k != 11,
    ensures
        name_at(i) != name_at(k),
{
    lemma_name_sizes();
    let m = name_at(i);
    let n = name_at(k);
    if m == n {
        assert(m.len() == n.len());
        assert(m[0] == n[0] && m[1] == n[1] && m[6] == n[6]);
    }
}

proof fn lemma_items()
    ensures
        is_plain("path"@),
        is_plain("command"@),
        is_plain("event"@),
        !"    "@.contains('<'),
        !"      "@.contains('<'),
        !"  "@.contains('<'),
{
    reveal_strlit("path");
    reveal_strlit("command");
    reveal_strlit("event");
    reveal_strlit("    ");
    reveal_strlit("      ");
    reveal_strlit("  ");
    lemma_plain_chars("path"@);
    lemma_plain_chars("command"@);
    lemma_plain_chars("event"@);
}

proof fn lemma_plain_chars(n: Seq<char>)
    requires
        n.len() > 0,
        forall|i: int| 0 <= i < n.len() ==> '_' <= #[trigger] n[i] <= 'z',
    ensures
        is_plain(n),
{
    assert(!n.contains('<') && !n.contains('>') && !n.contains(' '));
}

proof fn lemma_lone_tag_passes(x: Seq<char>, indent: Seq<char>, name: Seq<char>, n: Seq<char>)
    requires
        x == indent + (tag(name) + "\n"@),
        !indent.contains('<'),
        is_name(name),
        is_name(n),
        n != name,
    ensures
        passes(x, tag(n)),
{
    reveal_strlit("\n");
    crate::scan::lemma_passes_text(indent, tag(n));
    crate::scan::lemma_passes_text("\n"@, tag(n));
    crate::scan::lemma_passes_other_tag(name, n);
    crate::scan::lemma_passes_concat(tag(name), "\n"@, tag(n));
    crate::scan::lemma_passes_concat(indent, tag(name) + "\n"@, tag(n));
}

proof fn lemma_lone_tags()
    ensures
        "<task_context>\n"@ == ""@ + (tag("task_context"@) + "\n"@),
        "  <system_manifest>\n"@ == "  "@ + (tag("system_manifest"@) + "\n"@),
        "  </system_manifest>\n"@ == "  "@ + (tag(closing("system_manifest"@)) + "\n"@),
        ""@.len() == 0,
{
    reveal_strlit("");
    reveal_strlit("\n");
    reveal_strlit("  ");
    reveal_strlit("task_context");
    reveal_strlit("system_manifest");
    reveal_strlit("<task_context>\n");
    reveal_strlit("  <system_manifest>\n");
    reveal_strlit("  </system_manifest>\n");
    assert("<task_context>\n"@ =~= ""@ + (tag("task_context"@) + "\n"@));
    assert("  <system_manifest>\n"@ =~= "  "@ + (tag("system_manifest"@) + "\n"@));
    assert("  </system_manifest>\n"@ =~= "  "@ + (tag(closing("system_manifest"@)) + "\n"@));
}

/// The text between the tags of a piece that is a section.
spec fn body_at(
    m: ManifestModel,
    status: TaskStatus,
    files: Seq<FileView>,
    history: Seq<Seq<char>>,
    k: int,
) -> Seq<char> {
    if k == 2 {
        crate::xml::escaped(crate::task::status_text(status))
    } else if k == 3 {
        crate::text::decimal(m.token_limit as nat)
    } else if k == 4 {
        crate::text::decimal(m.max_steps as nat)
    } else if k == 5 {
        crate::text::decimal(m.timeout_ms as nat)
    } else if k == 6 {
        list_body("      "@, "path"@, m.allow_read, "    "@)
    } else if k == 7 {
        list_body("      "@, "path"@, m.allow_write, "    "@)
    } else if k == 8 {
        list_body("      "@, "path"@, m.mandatory_artifacts, "    "@)
    } else if k == 9 {
        list_body("      "@, "command"@, m.allow_exec, "    "@)
    } else if k == 10 {
        list_body("      "@, "command"@, m.test_commands, "    "@)
    } else if k == 12 {
        "\n"@ + (crate::context::file_elements(files) + "  "@)
    } else {
        list_body("    "@, "event"@, history, "  "@)
    }
}

spec fn indent_at(k: int) -> Seq<char> {
    if k < 11 {
        "    "@
    } else {
        "  "@
    }
}

proof fn lemma_body_passes(
    m: ManifestModel,
    status: TaskStatus,
    files: Seq<FileView>,
    history: Seq<Seq<char>>,
    k: int,
    n: Seq<char>,
)
    requires
        2 <= k < 14,
        k != 11,
        is_name(n),
        !n.contains(' '),
        n != "path"@ && n != "command"@ && n != "event"@,
        n != closing("path"@) && n != closing("command"@) && n != closing("event"@),
        n != closing("file"@),
    ensures
        passes(body_at(m, status, files, history, k), tag(n)),
{
    lemma_items();
    if k == 2 {
        crate::xml::lemma_escaped_is_inert(crate::task::status_text(status));
        crate::scan::lemma_passes_text(body_at(m, status, files, history, k), tag(n));
    } else if k <= 5 {
        lemma_decimal_is_text(m.token_limit as nat);
        lemma_decimal_is_text(m.max_steps as nat);
        lemma_decimal_is_text(m.timeout_ms as nat);
        crate::scan::lemma_passes_text(body_at(m, status, files, history, k), tag(n));
    } else if k == 6 {
        lemma_list_passes("      "@, "path"@, m.allow_read, "    "@, n);
    } else if k == 7 {
        lemma_list_passes("      "@, "path"@, m.allow_write, "    "@, n);
    } else if k == 8 {
        lemma_list_passes("      "@, "path"@, m.mandatory_artifacts, "    "@, n);
    } else if k == 9 {
        lemma_list_passes("      "@, "command"@, m.allow_exec, "    "@, n);
    } else if k == 10 {
        lemma_list_passes("      "@, "command"@, m.test_commands, "    "@, n);
    } else if k == 12 {
        reveal_strlit("\n");
        lemma_files_pass(files, n);
        crate::scan::lemma_passes_text("\n"@, tag(n));
        crate::scan::lemma_passes_text("  "@, tag(n));
        crate::scan::lemma_passes_concat(crate::context::file_elements(files), "  "@, tag(n));
        crate::scan::lemma_passes_concat(
            "\n"@,
            crate::context::file_elements(files) + "  "@,
            tag(n),
        );
    } else {
        lemma_list_passes("    "@, "event"@, history, "  "@, n);
    }
}

proof fn lemma_piece_is_section(
    m: ManifestModel,
    status: TaskStatus,
    files: Seq<FileView>,
    history: Seq<Seq<char>>,
    k: int,
)
    requires
        2 <= k < 14,
        k != 11,
    ensures
        pieces(m, status, files, history).len() == 15,
        pieces(m, status, files, history)[k] == section(
            indent_at(k),
            name_at(k),
            body_at(m, status, files, history, k),
        ),
{
}

proof fn lemma_starts_differ(n: Seq<char>, m: Seq<char>)
    requires
        is_plain(n),
    ensures
        n != closing(m),
{
    assert(closing(m)[0] == '/');
}

proof fn lemma_piece_passes(
    m: ManifestModel,
    status: TaskStatus,
    files: Seq<FileView>,
    history: Seq<Seq<char>>,
    i: int,
    k: int,
)
    requires
        0 <= i < k < 14,
        2 <= k,
        k != 11,
    ensures
        passes(pieces(m, status, files, history)[i], tag(name_at(k))),
{
    let n = name_at(k);
    lemma_items();
    lemma_name_is_plain(i);
    lemma_name_is_plain(k);
    lemma_name_is_no_item(k);
    lemma_names_differ(i, k);
    lemma_lone_tags();
    lemma_starts_differ(n, "path"@);
    lemma_starts_differ(n, "command"@);
    lemma_starts_differ(n, "event"@);
    lemma_starts_differ(n, "file"@);
    lemma_starts_differ(n, name_at(i));
    if i == 0 {
        lemma_lone_tag_passes("<task_context>\n"@, ""@, "task_context"@, n);
    } else if i == 1 {
        lemma_lone_tag_passes("  <system_manifest>\n"@, "  "@, "system_manifest"@, n);
    } else if i == 11 {
        lemma_closing_name("system_manifest"@);
        lemma_lone_tag_passes("  </system_manifest>\n"@, "  "@, closing("system_manifest"@), n);
    } else {
        lemma_piece_is_section(m, status, files, history, i);
        lemma_body_passes(m, status, files, history, i, n);
        lemma_section_passes(indent_at(i), name_at(i), body_at(m, status, files, history, i), n);
    }
}

/// Each section is found by its name, whole.
proof fn lemma_section_read(
    m: ManifestModel,
    status: TaskStatus,
    files: Seq<FileView>,
    history: Seq<Seq<char>>,
    k: int,
)
    requires
        2 <= k < 14,
        k != 11,
    ensures
        element_in(crate::context::context_xml(m, status, files, history), name_at(k)) == Some(
            body_at(m, status, files, history, k),
        ),
{
    let all = pieces(m, status, files, history);
    let n = name_at(k);
    let body = body_at(m, status, files, history, k);
    let indent = indent_at(k);
    lemma_context_flat(m, status, files, history);
    lemma_piece_is_section(m, status, files, history, k);
    lemma_section_ends(m, status, files, history, k);
    lemma_pieces_before(m, status, files, history, k);
    lemma_items();
    crate::scan::lemma_flat_split(all, k);
    let head = flat(all.take(k));
    let rest = flat(all.skip(k + 1));
    crate::scan::lemma_passes_text(indent, tag(n));
    crate::scan::lemma_passes_concat(head, indent, tag(n));
    crate::scan::lemma_element_read(head + indent, n, body, "\n"@ + rest);
    lemma_regroup(head, indent, n, body, rest);
}

proof fn lemma_regroup(
    head: Seq<char>,
    indent: Seq<char>,
    n: Seq<char>,
    body: Seq<char>,
    rest: Seq<char>,
)
    ensures
        head + (section(indent, n, body) + rest) == (head + indent) + (tag(n) + (body + (tag(
            closing(n),
        ) + ("\n"@ + rest)))),
{
    assert(head + (section(indent, n, body) + rest) =~= (head + indent) + (tag(n) + (body + (tag(
        closing(n),
    ) + ("\n"@ + rest)))));
}

proof fn lemma_pieces_before(
    m: ManifestModel,
    status: TaskStatus,
    files: Seq<FileView>,
    history: Seq<Seq<char>>,
    k: int,
)
    requires
        2 <= k < 14,
        k != 11,
    ensures
        passes(flat(pieces(m, status, files, history).take(k)), tag(name_at(k))),
{
    let all = pieces(m, status, files, history);
    lemma_piece_is_section(m, status, files, history, k);
    let head = all.take(k);
    assert forall|i: int| 0 <= i < head.len() implies passes(
        #[trigger] head[i],
        tag(name_at(k)),
    ) by {
        lemma_piece_passes(m, status, files, history, i, k);
        assert(head[i] == all[i]);
    }
    crate::scan::lemma_flat_passes(head, tag(name_at(k)));
}

proof fn lemma_section_ends(
    m: ManifestModel,
    status: TaskStatus,
    files: Seq<FileView>,
    history: Seq<Seq<char>>,
    k: int,
)
    requires
        2 <= k < 14,
        k != 11,
    ensures
        passes(body_at(m, status, files, history, k), tag(closing(name_at(k)))),
{
    let n = name_at(k);
    lemma_items();
    lemma_name_is_plain(k);
    lemma_name_is_no_item(k);
    lemma_closing_name(n);
    lemma_closing_differs(n, "path"@);
    lemma_closing_differs(n, "command"@);
    lemma_closing_differs(n, "event"@);
    lemma_closing_differs(n, "file"@);
    lemma_starts_differ("path"@, n);
    lemma_starts_differ("command"@, n);
    lemma_starts_differ("event"@, n);
    lemma_body_passes(m, status, files, history, k, closing(n));
}

/// The paths that a section of the context lists.
pub open spec fn listed(x: Seq<char>, name: Seq<char>, item: Seq<char>) -> Option<Seq<Seq<char>>> {
    match element_in(x, name) {
        Some(body) => Some(elements_in(body, item)),
        None => None,
    }
}

/// The number that a section of the context gives.
pub open spec fn numbered(x: Seq<char>, name: Seq<char>) -> Option<int> {
    match element_in(x, name) {
        Some(body) => Some(crate::text::number_in(body)),
        None => None,
    }
}

/// Each section of a context tells its own field: read by the name of its
/// section, each list, each limit and the status come out as they went in,
/// whatever they hold.
pub proof fn lemma_contexts_tell_the_manifest(snapshot: &TaskSnapshot, x: String)
    requires
        call_ensures(TaskSnapshot::to_xml, (snapshot,), x),
    ensures
        listed(x@, "allow_read"@, "path"@) == Some(snapshot.manifest@.allow_read),
        listed(x@, "allow_write"@, "path"@) == Some(snapshot.manifest@.allow_write),
        listed(x@, "mandatory_artifacts"@, "path"@) == Some(
            snapshot.manifest@.mandatory_artifacts,
        ),
        listed(x@, "allow_exec"@, "command"@) == Some(snapshot.manifest@.allow_exec),
        listed(x@, "test_commands"@, "command"@) == Some(snapshot.manifest@.test_commands),
        numbered(x@, "token_limit"@) == Some(snapshot.manifest.token_limit as int),
        numbered(x@, "max_steps"@) == Some(snapshot.manifest.max_steps as int),
        numbered(x@, "timeout_ms"@) == Some(snapshot.manifest.timeout_ms as int),
        element_in(x@, "status"@) matches Some(t) && crate::xml::unescaped(t)
            == crate::task::status_text(snapshot.status),
{
    let m = snapshot.manifest@;
    let files = crate::context::file_views(snapshot.files@);
    let history = crate::text::texts(snapshot.execution_history@);
    lemma_paths_told(m, snapshot.status, files, history);
    lemma_commands_told(m, snapshot.status, files, history);
    lemma_limits_told(m, snapshot.status, files, history);
}

proof fn lemma_paths_told(
    m: ManifestModel,
    status: TaskStatus,
    files: Seq<FileView>,
    history: Seq<Seq<char>>,
)
    ensures
        ({
            let x = crate::context::context_xml(m, status, files, history);
            &&& listed(x, "allow_read"@, "path"@) == Some(m.allow_read)
            &&& listed(x, "allow_write"@, "path"@) == Some(m.allow_write)
            &&& listed(x, "mandatory_artifacts"@, "path"@) == Some(m.mandatory_artifacts)
        }),
{
    lemma_items();
    lemma_section_read(m, status, files, history, 6);
    lemma_section_read(m, status, files, history, 7);
    lemma_section_read(m, status, files, history, 8);
    lemma_list_read("      "@, "path"@, m.allow_read, "    "@);
    lemma_list_read("      "@, "path"@, m.allow_write, "    "@);
    lemma_list_read("      "@, "path"@, m.mandatory_artifacts, "    "@);
}

proof fn lemma_commands_told(
    m: ManifestModel,
    status: TaskStatus,
    files: Seq<FileView>,
    history: Seq<Seq<char>>,
)
    ensures
        ({
            let x = crate::context::context_xml(m, status, files, history);
            &&& listed(x, "allow_exec"@, "command"@) == Some(m.allow_exec)
            &&& listed(x, "test_commands"@, "command"@) == Some(m.test_commands)
        }),
{
    lemma_items();
    lemma_section_read(m, status, files, history, 9);
    lemma_section_read(m, status, files, history, 10);
    lemma_list_read("      "@, "command"@, m.allow_exec, "    "@);
    lemma_list_read("      "@, "command"@, m.test_commands, "    "@);
}

proof fn lemma_limits_told(
    m: ManifestModel,
    status: TaskStatus,
    files: Seq<FileView>,
    history: Seq<Seq<char>>,
)
    ensures
        ({
            let x = crate::context::context_xml(m, status, files, history);
            &&& numbered(x, "token_limit"@) == Some(m.token_limit as int)
            &&& numbered(x, "max_steps"@) == Some(m.max_steps as int)
            &&& numbered(x, "timeout_ms"@) == Some(m.timeout_ms as int)
            &&& element_in(x, "status"@) == Some(
                crate::xml::escaped(crate::task::status_text(status)),
            )
            &&& crate::xml::unescaped(crate::xml::escaped(crate::task::status_text(status)))
                == crate::task::status_text(status)
        }),
{
    lemma_section_read(m, status, files, history, 2);
    lemma_section_read(m, status, files, history, 3);
    lemma_section_read(m, status, files, history, 4);
    lemma_section_read(m, status, files, history, 5);
    crate::text::lemma_decimal_reads_back(m.token_limit as nat);
    crate::text::lemma_decimal_reads_back(m.max_steps as nat);
    crate::text::lemma_decimal_reads_back(m.timeout_ms as nat);
    crate::xml::lemma_escape_round_trip(crate::task::status_text(status));
}

/// A context shows all files that were gathered, in their order, each with its
/// path and its contents, and all events.
pub proof fn lemma_contexts_show_files_and_history(snapshot: &TaskSnapshot, x: String)
    requires
        call_ensures(TaskSnapshot::to_xml, (snapshot,), x),
    ensures
        element_in(x@, "environment_files"@) matches Some(t) && files_in(t)
            == crate::context::file_views(snapshot.files@).map_values(|f: FileView| shown(f)),
        listed(x@, "execution_history"@, "event"@) == Some(
            crate::text::texts(snapshot.execution_history@),
        ),
{
    let m = snapshot.manifest@;
    let files = crate::context::file_views(snapshot.files@);
    let history = crate::text::texts(snapshot.execution_history@);
    lemma_items();
    lemma_section_read(m, snapshot.status, files, history, 12);
    lemma_section_read(m, snapshot.status, files, history, 13);
    lemma_list_read("    "@, "event"@, history, "  "@);
    reveal_strlit("\n");
    lemma_files_in_passed("\n"@, crate::context::file_elements(files) + "  "@);
    lemma_files_read(files, "  "@);
    lemma_files_in_passed("  "@, Seq::empty());
    assert("  "@ + Seq::<char>::empty() =~= "  "@);
    reveal_strlit("<file path=\"");
    let read = files.map_values(|f: FileView| shown(f));
    assert(files_in(Seq::<char>::empty()) == Seq::<ShownFile>::empty());
    assert(read + Seq::<ShownFile>::empty() =~= read);
}

/// The names of the statuses are all different.
pub proof fn lemma_statuses_are_told_apart(a: TaskStatus, b: TaskStatus)
    ensures
        crate::task::status_text(a) == crate::task::status_text(b) ==> a == b,
{
    reveal_strlit("Idle");
    reveal_strlit("Running");
    reveal_strlit("Verifying");
    reveal_strlit("Success");
    reveal_strlit("Failed");
    reveal_strlit("Violation");
    assert("Idle"@.len() == 4 && "Running"@.len() == 7 && "Success"@.len() == 7);
    assert("Verifying"@.len() == 9 && "Violation"@.len() == 9 && "Failed"@.len() == 6);
    assert("Running"@[0] == 'R' && "Success"@[0] == 'S');
    assert("Verifying"@[1] == 'e' && "Violation"@[1] == 'i');
}

} // verus!
