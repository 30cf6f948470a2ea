//! The editor round trip: rendering a scratch buffer from a title and notes,
//! and parsing an edited buffer back into a title and notes, with comment
//! lines stripped and outer blank lines trimmed from the notes.
//!
//! Writing the scratch file and running the editor are the caller's concern;
//! everything here is a pure function of the buffer text. The sentinel
//! editor `-` means "no interactive editor": the round trip then returns its
//! inputs unchanged and no scratch file is ever written.
use vstd::prelude::*;
use vstd::string::StrSliceExecFns;
use vstd::string::StringExecFns;

use crate::TaskError;

verus! {

/// The comment line written into every scratch buffer.
pub open spec fn comment_disclaimer_spec() -> Seq<char> {
    "# This is a comment, lines starting with a # will be ignored"@
}

/// The trailing comment line written at the end of every scratch buffer.
pub open spec fn trailing_disclaimer_spec() -> Seq<char> {
    "# The first non-comment line will assumed to be the title and every other line will be saved as notes"@
}

/// The buffer staged for editing: title, a blank line, the comment
/// disclaimer, the notes, and the trailing disclaimer.
pub open spec fn rendered_buffer(title: Seq<char>, notes: Seq<char>) -> Seq<char> {
    title + "\n\n"@ + comment_disclaimer_spec() + "\n"@ + notes + "\n"@ + trailing_disclaimer_spec()
        + "\n"@
}

/// A buffer split at every newline. There is always at least one piece; a
/// trailing newline ends the last piece with an empty one.
pub open spec fn split_lines(s: Seq<char>) -> Seq<Seq<char>>
    decreases s.len(),
{
    if s.len() == 0 {
        seq![Seq::<char>::empty()]
    } else {
        let init = split_lines(s.drop_last());
        if s.last() == '\n' {
            init.push(Seq::<char>::empty())
        } else {
            init.update(init.len() - 1, init.last().push(s.last()))
        }
    }
}

/// The lines of a buffer: the newline-separated pieces, except that a final
/// newline does not open one more empty line.
pub open spec fn lines_of(s: Seq<char>) -> Seq<Seq<char>> {
    let pieces = split_lines(s);
    if pieces.last().len() == 0 {
        pieces.drop_last()
    } else {
        pieces
    }
}

/// Whether a line is a comment: its first character past any leading blanks
/// is `#`.
pub open spec fn is_comment_line(l: Seq<char>) -> bool
    decreases l.len(),
{
    if l.len() == 0 {
        false
    } else if l[0] == ' ' || l[0] == '\t' {
        is_comment_line(l.drop_first())
    } else {
        l[0] == '#'
    }
}

/// The lines of a buffer that are not comments.
pub open spec fn non_comment_lines(s: Seq<char>) -> Seq<Seq<char>> {
    lines_of(s).filter(|l: Seq<char>| !is_comment_line(l))
}

/// Lines joined back together with newlines between them.
pub open spec fn join_lines(ls: Seq<Seq<char>>) -> Seq<char>
    decreases ls.len(),
{
    if ls.len() == 0 {
        Seq::empty()
    } else if ls.len() == 1 {
        ls[0]
    } else {
        join_lines(ls.drop_last()) + seq!['\n'] + ls.last()
    }
}

/// A sequence with its leading newlines removed.
pub open spec fn trim_leading_newlines(s: Seq<char>) -> Seq<char>
    decreases s.len(),
{
    if s.len() > 0 && s[0] == '\n' {
        trim_leading_newlines(s.drop_first())
    } else {
        s
    }
}

/// A sequence with its trailing newlines removed.
pub open spec fn trim_trailing_newlines(s: Seq<char>) -> Seq<char>
    decreases s.len(),
{
    if s.len() > 0 && s.last() == '\n' {
        trim_trailing_newlines(s.drop_last())
    } else {
        s
    }
}

/// A sequence with both leading and trailing newlines removed.
pub open spec fn trim_newlines(s: Seq<char>) -> Seq<char> {
    trim_trailing_newlines(trim_leading_newlines(s))
}

/// Whether an edited buffer still holds a title: at least one line is not a
/// comment.
pub open spec fn buffer_has_title(s: Seq<char>) -> bool {
    non_comment_lines(s).len() > 0
}

/// The title an edited buffer parses to: its first non-comment line.
pub open spec fn parsed_title(s: Seq<char>) -> Seq<char> {
    non_comment_lines(s)[0]
}

/// The notes an edited buffer parses to: the remaining non-comment lines
/// joined with newlines, with outer blank lines trimmed away (interior
/// blank lines are kept).
pub open spec fn parsed_notes(s: Seq<char>) -> Seq<char> {
    trim_newlines(join_lines(non_comment_lines(s).drop_first()))
}

/// The comment line written into every scratch buffer.
pub fn comment_disclaimer() -> (r: &'static str)
    ensures
        r@ == comment_disclaimer_spec(),
{
    "# This is a comment, lines starting with a # will be ignored"
}

/// Render the buffer staged for editing a title and notes.
pub fn render_todo_buffer(title: &str, notes: &str) -> (r: String)
    ensures
        r@ == rendered_buffer(title@, notes@),
{
    let mut out = String::from_str(title);
    out.append("\n\n");
    out.append(comment_disclaimer());
    out.append("\n");
    out.append(notes);
    out.append("\n");
    out.append(
        "# The first non-comment line will assumed to be the title and every other line will be saved as notes",
    );
    out.append("\n");
    proof {
        assert(out@ =~= rendered_buffer(title@, notes@));
    }
    out
}

/// Whether an editor command is the sentinel `-`, meaning the round trip
/// must not touch a scratch file at all.
pub fn is_no_editor(editor: &str) -> (b: bool)
    ensures
        b == (editor@ == "-"@),
{
    proof {
        reveal_strlit("-");
    }
    if editor.unicode_len() == 1 {
        let c = editor.get_char(0);
        if c == '-' {
            proof {
                assert(editor@ =~= "-"@);
            }
            true
        } else {
            false
        }
    } else {
        false
    }
}

/// Resolve the editor command: the environment's value when it is set and
/// non-empty, the fixed default otherwise.
pub fn get_editor(env_editor: Option<String>) -> (r: String)
    ensures
        env_editor matches Some(e) ==> r@ == (if e@.len() > 0 {
            e@
        } else {
            "vi"@
        }),
        env_editor is None ==> r@ == "vi"@,
{
    match env_editor {
        Some(e) => {
            if e.as_str().is_empty() {
                String::from_str("vi")
            } else {
                e
            }
        },
        None => String::from_str("vi"),
    }
}

proof fn lemma_trim_leading(s: Seq<char>, a: int)
    requires
        0 <= a <= s.len(),
        forall|k: int| 0 <= k < a ==> s[k] == '\n',
        a < s.len() ==> s[a] != '\n',
    ensures
        trim_leading_newlines(s) == s.skip(a),
    decreases a,
{
    if a == 0 {
        assert(s.skip(0) =~= s);
    } else {
        assert(s[0] == '\n');
        let t = s.drop_first();
        assert(forall|k: int| 0 <= k < a - 1 ==> t[k] == '\n');
        lemma_trim_leading(t, a - 1);
        assert(t.skip(a - 1) =~= s.skip(a));
    }
}

proof fn lemma_trim_trailing(s: Seq<char>, b: int)
    requires
        0 <= b <= s.len(),
        forall|k: int| b <= k < s.len() ==> s[k] == '\n',
        b > 0 ==> s[b - 1] != '\n',
    ensures
        trim_trailing_newlines(s) == s.take(b),
    decreases s.len() - b,
{
    if b == s.len() {
        if s.len() > 0 {
            assert(s.last() != '\n');
        }
        assert(s.take(b) =~= s);
    } else {
        assert(s.last() == '\n');
        let t = s.drop_last();
        lemma_trim_trailing(t, b);
        assert(t.take(b) =~= s.take(b));
    }
}

/// Split a buffer into its lines, the way `lines_of` describes them.
fn split_into_lines(buf: &str) -> (r: Vec<String>)
    ensures
        r@.map_values(|l: String| l@) == lines_of(buf@),
{
    let n = buf.unicode_len();
    let mut lines: Vec<String> = Vec::new();
    let mut start: usize = 0;
    let mut i: usize = 0;
    proof {
        assert(buf@.take(0) =~= Seq::<char>::empty());
        assert(buf@.subrange(0, 0) =~= Seq::<char>::empty());
        assert(lines@.map_values(|l: String| l@) =~= Seq::<Seq<char>>::empty());
    }
    while i < n
        invariant
            start <= i <= n,
            n == buf@.len(),
            split_lines(buf@.take(i as int)) == lines@.map_values(|l: String| l@) + seq![
                buf@.subrange(start as int, i as int),
            ],
        decreases n - i,
    {
        let ghost old_lines = lines@.map_values(|l: String| l@);
        let ghost old_start = start as int;
        let c = buf.get_char(i);
        if c == '\n' {
            let piece = buf.substring_char(start, i);
            lines.push(String::from_str(piece));
            start = i + 1;
        }
        i += 1;
        proof {
            let p = buf@.take(i as int);
            assert(p.drop_last() =~= buf@.take(i as int - 1));
            assert(p.last() == c);
            let init = split_lines(p.drop_last());
            if c == '\n' {
                assert(lines@.map_values(|l: String| l@) =~= old_lines.push(
                    buf@.subrange(old_start, i as int - 1),
                ));
                assert(buf@.subrange(start as int, i as int) =~= Seq::<char>::empty());
                assert(split_lines(p) =~= lines@.map_values(|l: String| l@) + seq![
                    buf@.subrange(start as int, i as int),
                ]);
            } else {
                assert(init.last() == buf@.subrange(old_start, i as int - 1));
                assert(buf@.subrange(old_start, i as int - 1).push(c) =~= buf@.subrange(
                    start as int,
                    i as int,
                ));
                assert(split_lines(p) =~= lines@.map_values(|l: String| l@) + seq![
                    buf@.subrange(start as int, i as int),
                ]);
            }
        }
    }
    proof {
        assert(buf@.take(n as int) =~= buf@);
    }
    if start == n {
        proof {
            assert(split_lines(buf@).last().len() == 0);
            assert(lines_of(buf@) =~= lines@.map_values(|l: String| l@));
        }
    } else {
        let piece = buf.substring_char(start, n);
        let ghost old_lines = lines@.map_values(|l: String| l@);
        lines.push(String::from_str(piece));
        proof {
            assert(split_lines(buf@).last().len() > 0);
            assert(lines@.map_values(|l: String| l@) =~= old_lines.push(
                buf@.subrange(start as int, n as int),
            ));
            assert(lines_of(buf@) =~= lines@.map_values(|l: String| l@));
        }
    }
    lines
}

/// Whether a line is a comment, the way `is_comment_line` describes it.
fn is_comment(line: &str) -> (b: bool)
    ensures
        b == is_comment_line(line@),
{
    let n = line.unicode_len();
    let mut j: usize = 0;
    proof {
        assert(line@.skip(0) =~= line@);
    }
    loop
        invariant
            j <= n,
            n == line@.len(),
            is_comment_line(line@) == is_comment_line(line@.skip(j as int)),
        decreases n - j,
    {
        if j == n {
            proof {
                assert(line@.skip(j as int) =~= Seq::<char>::empty());
            }
            return false;
        }
        let c = line.get_char(j);
        proof {
            assert(line@.skip(j as int)[0] == c);
        }
        if c == ' ' || c == '\t' {
            proof {
                assert(line@.skip(j as int).drop_first() =~= line@.skip(j as int + 1));
            }
            j += 1;
        } else {
            return c == '#';
        }
    }
}

/// Trim the outer newlines from a string, the way `trim_newlines` describes.
fn trim_newlines_exec(s: &str) -> (r: String)
    ensures
        r@ == trim_newlines(s@),
{
    let n = s.unicode_len();
    let mut a: usize = 0;
    loop
        invariant
            a <= n,
            n == s@.len(),
            forall|k: int| 0 <= k < a ==> s@[k] == '\n',
        ensures
            a <= n,
            forall|k: int| 0 <= k < a ==> s@[k] == '\n',
            a < n ==> s@[a as int] != '\n',
        decreases n - a,
    {
        if a == n {
            break ;
        }
        if s.get_char(a) != '\n' {
            break ;
        }
        a += 1;
    }
    proof {
        lemma_trim_leading(s@, a as int);
    }
    let mut b: usize = n;
    loop
        invariant
            a <= b <= n,
            n == s@.len(),
            forall|k: int| b <= k < n ==> s@[k] == '\n',
        ensures
            a <= b <= n,
            forall|k: int| b <= k < n ==> s@[k] == '\n',
            b > a ==> s@[b - 1] != '\n',
        decreases b,
    {
        if b == a {
            break ;
        }
        if s.get_char(b - 1) != '\n' {
            break ;
        }
        b -= 1;
    }
    let piece = s.substring_char(a, b);
    proof {
        let t = s@.skip(a as int);
        assert(forall|k: int| b - a <= k < t.len() ==> t[k] == '\n');
        lemma_trim_trailing(t, b as int - a as int);
        assert(t.take(b as int - a as int) =~= s@.subrange(a as int, b as int));
    }
    String::from_str(piece)
}

/// Parse an edited buffer back into a title and notes. The title is the
/// first non-comment line; the notes are the remaining non-comment lines
/// joined with newlines, with outer blank lines trimmed. Fails with
/// `TaskError::EmptyTitle` exactly when no non-comment line is left.
pub fn parse_todo_buffer(buf: &str) -> (r: Result<(String, String), TaskError>)
    ensures
        buffer_has_title(buf@) ==> (r matches Ok(p) && p.0@ == parsed_title(buf@) && p.1@
            == parsed_notes(buf@)),
        !buffer_has_title(buf@) ==> r == Err::<(String, String), TaskError>(TaskError::EmptyTitle),
{
    let lines = split_into_lines(buf);
    let ghost keep = |l: Seq<char>| !is_comment_line(l);
    let mut nc: Vec<String> = Vec::new();
    let mut i: usize = 0;
    proof {
        assert(lines@.map_values(|l: String| l@).take(0) =~= Seq::<Seq<char>>::empty());
        assert(Seq::<Seq<char>>::empty().filter(keep) =~= Seq::<Seq<char>>::empty()) by {
            reveal(Seq::filter);
        }
        assert(nc@.map_values(|l: String| l@) =~= Seq::<Seq<char>>::empty());
    }
    while i < lines.len()
        invariant
            i <= lines@.len(),
            lines@.map_values(|l: String| l@) == lines_of(buf@),
            keep == (|l: Seq<char>| !is_comment_line(l)),
            nc@.map_values(|l: String| l@) == lines@.map_values(|l: String| l@).take(
                i as int,
            ).filter(keep),
        decreases lines@.len() - i,
    {
        let ghost lv = lines@.map_values(|l: String| l@);
        let ghost old_nc = nc@.map_values(|l: String| l@);
        let comment = is_comment(lines[i].as_str());
        if !comment {
            let line = lines[i].clone();
            nc.push(line);
            proof {
                assert(nc@.map_values(|l: String| l@) =~= old_nc.push(lv[i as int]));
            }
        }
        proof {
            lv.take(i as int).lemma_filter_push(lv[i as int], keep);
            assert(lv.take(i as int).push(lv[i as int]) =~= lv.take(i as int + 1));
        }
        i += 1;
    }
    proof {
        let lv = lines@.map_values(|l: String| l@);
        assert(lv.take(lv.len() as int) =~= lv);
        assert(nc@.map_values(|l: String| l@) == non_comment_lines(buf@));
    }
    if nc.len() == 0 {
        proof {
            assert(non_comment_lines(buf@).len() == 0);
        }
        return Err(TaskError::EmptyTitle);
    }
    let title = nc[0].clone();
    let ghost ncv = nc@.map_values(|l: String| l@);
    let mut notes = String::new();
    let mut k: usize = 1;
    proof {
        assert(ncv.subrange(1, 1) =~= Seq::<Seq<char>>::empty());
    }
    while k < nc.len()
        invariant
            1 <= k <= nc@.len(),
            nc@.len() >= 1,
            ncv == nc@.map_values(|l: String| l@),
            notes@ == join_lines(ncv.subrange(1, k as int)),
        decreases nc@.len() - k,
    {
        if k > 1 {
            notes.append("\n");
        }
        notes.append(nc[k].as_str());
        proof {
            reveal_strlit("\n");
            let cur = ncv.subrange(1, k as int + 1);
            assert(cur.drop_last() =~= ncv.subrange(1, k as int));
            assert(cur.last() == ncv[k as int]);
            if k == 1 {
                assert(notes@ =~= join_lines(cur));
            } else {
                assert("\n"@ =~= seq!['\n']);
                assert(notes@ =~= join_lines(cur));
            }
        }
        k += 1;
    }
    proof {
        assert(ncv.subrange(1, ncv.len() as int) =~= ncv.drop_first());
    }
    let trimmed = trim_newlines_exec(notes.as_str());
    Ok((title, trimmed))
}

/// What the editor round trip must do next.
#[derive(Debug)]
pub enum EditorStep {
    /// The sentinel editor `-`: the title and notes pass through unchanged
    /// and no scratch file is written.
    Done(String, String),
    /// An interactive editor: this buffer must be written to the scratch
    /// file, the editor run on it, the file read back and removed, and the
    /// result handed to `parse_todo_buffer`.
    Launch(String),
}

/// Begin the editor round trip for a title and notes: with the sentinel
/// editor the pair comes back unchanged, otherwise the rendered scratch
/// buffer is handed out for the editor run.
pub fn plan_round_trip(editor: &str, title: String, notes: String) -> (r: EditorStep)
    ensures
        editor@ == "-"@ ==> r == EditorStep::Done(title, notes),
        editor@ != "-"@ ==> (r matches EditorStep::Launch(b) && b@ == rendered_buffer(
            title@,
            notes@,
        )),
{
    if is_no_editor(editor) {
        EditorStep::Done(title, notes)
    } else {
        EditorStep::Launch(render_todo_buffer(title.as_str(), notes.as_str()))
    }
}

} // verus!
