use crate::dataset::Dataset;
use crate::text::{chars_of, lines_of, push_chars, split_lines};
use vstd::prelude::*;
use vstd::string::*;

verus! {

/// The first `n` of `lines`, each behind `mark` and ended by a line feed.
pub open spec fn marked(lines: Seq<Seq<char>>, n: nat, mark: Seq<char>) -> Seq<char>
    decreases n,
{
    if n == 0 || n > lines.len() {
        Seq::empty()
    } else {
        marked(lines, (n - 1) as nat, mark) + mark + lines[n - 1] + seq!['\n']
    }
}

/// `text` as comment lines: each of its lines behind `# `.
pub open spec fn commented(text: Seq<char>) -> Seq<char> {
    marked(lines_of(text), lines_of(text).len(), "# "@)
}

/// Those of the first `n` of `lines` that start with `comment`, each ended
/// by a line feed.
pub open spec fn chosen(lines: Seq<Seq<char>>, n: nat, comment: char) -> Seq<char>
    decreases n,
{
    if n == 0 || n > lines.len() {
        Seq::empty()
    } else {
        let rest = chosen(lines, (n - 1) as nat, comment);
        let line = lines[n - 1];
        if line.len() > 0 && line[0] == comment {
            rest + line + seq!['\n']
        } else {
            rest
        }
    }
}

/// The comment lines of `input`: its lines that start with `comment`.
pub open spec fn comment_lines(input: Seq<char>, comment: char) -> Seq<char> {
    chosen(lines_of(input), lines_of(input).len(), comment)
}

/// Writes each line of `text` behind `# `, as a comment line.
pub fn comment_out(text: &str) -> (r: String)
    ensures
        r@ == commented(text@),
{
    let chars = chars_of(text);
    let lines = split_lines(chars.as_slice());
    let mark = chars_of("# ");
    let ghost all = lines_of(text@);
    let mut out = String::new();
    let mut k: usize = 0;
    while k < lines.len()
        invariant
            k <= lines.len(),
            lines@.map_values(|v: Vec<char>| v@) == all,
            mark@ == "# "@,
            out@ == marked(all, k as nat, "# "@),
        decreases lines.len() - k,
    {
        proof {
            assert(all.len() == lines.len());
            assert(all[k as int] == lines@[k as int]@);
        }
        push_chars(&mut out, mark.as_slice());
        push_chars(&mut out, lines[k].as_slice());
        out.append("\n");
        proof {
            reveal_strlit("\n");
            assert("\n"@ =~= seq!['\n']);
        }
        k += 1;
    }
    proof {
        assert(all.len() == lines.len());
    }
    out
}

/// The comment lines of `input`, each ended by a line feed: the lines that
/// start with `comment`.
pub fn comments_of(input: &str, comment: char) -> (r: String)
    ensures
        r@ == comment_lines(input@, comment),
{
    let chars = chars_of(input);
    let lines = split_lines(chars.as_slice());
    let ghost all = lines_of(input@);
    let mut out = String::new();
    let mut k: usize = 0;
    while k < lines.len()
        invariant
            k <= lines.len(),
            lines@.map_values(|v: Vec<char>| v@) == all,
            out@ == chosen(all, k as nat, comment),
        decreases lines.len() - k,
    {
        proof {
            assert(all.len() == lines.len());
            assert(all[k as int] == lines@[k as int]@);
        }
        if lines[k].len() > 0 && lines[k][0] == comment {
            push_chars(&mut out, lines[k].as_slice());
            out.append("\n");
            proof {
                reveal_strlit("\n");
                assert("\n"@ =~= seq!['\n']);
            }
        }
        k += 1;
    }
    proof {
        assert(all.len() == lines.len());
    }
    out
}

/// The comments that a dataset takes over from its input: the comment lines
/// of `input` behind the line `source`, or nothing if there are none.
pub fn input_comments(input: &str, comment: char, source: &str) -> (r: String)
    ensures
        r@ == (if comment_lines(input@, comment).len() == 0 {
            Seq::<char>::empty()
        } else {
            source@ + comment_lines(input@, comment)
        }),
{
    let found = comments_of(input, comment);
    if found.as_str().unicode_len() == 0 {
        proof {
            assert(found@ =~= Seq::<char>::empty());
        }
        found
    } else {
        let mut out = source.to_owned();
        out.append(found.as_str());
        out
    }
}

/// The comment lines in front of the numbers of an output file: the line
/// that names the program and its version, a delimiter line, the
/// provenance log, and the comments of earlier runs.
pub fn file_header(dataset: &Dataset, version: &str) -> (r: String)
    ensures
        r@ == "# Raman CLI Tools version "@ + version@ + ".\n# ---\n"@ + commented(dataset.log()) + commented(
            dataset.comments(),
        ),
{
    let mut out = "# Raman CLI Tools version ".to_owned();
    out.append(version);
    out.append(".\n# ---\n");
    let log = comment_out(dataset.metadata());
    out.append(log.as_str());
    let comments = comment_out(dataset.previous_comments());
    out.append(comments.as_str());
    out
}

} // verus!
