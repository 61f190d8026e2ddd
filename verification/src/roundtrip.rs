use crate::error::Error;
use crate::pipeline::{
    cleaned, declared_from, is_declaration, kind_named, lemma_kind_names_lead_back, recorded, recorded_from,
    segment_kind, TransformerKind,
};
use crate::text::{
    find_from, find_text, first_mark, has_text, is_letter, is_space, last_mark, lemma_find_from_is, lemma_find_text,
    lemma_find_text_is, occurs_at, pieces, pieces_from, trimmed, without, without_from,
};
use vstd::prelude::*;

verus! {

/// Whether `s` holds nothing but white space.
pub open spec fn blank(s: Seq<char>) -> bool {
    forall|i: int| 0 <= i < s.len() ==> is_space(#[trigger] s[i])
}

/// Whether a log can take a further record: what stands behind its last
/// `---` is blank.
pub open spec fn open_ended(log: Seq<char>) -> bool {
    blank(pieces(log, "---"@).last())
}

/// Whether `config` is a record of a transformation of kind `kind` in the
/// form in which it can be read back: its first line declares the kind, its
/// last character is a line feed, and it holds neither `---` nor `# `.
pub open spec fn plain_record(config: Seq<char>, kind: TransformerKind) -> bool {
    let head = "transformation: "@ + kind.tag();
    &&& config.len() > head.len()
    &&& config.subrange(0, head.len() as int) == head
    &&& config[head.len() as int] == '\n'
    &&& config.last() == '\n'
    &&& !has_text(config, "---"@)
    &&& !has_text(config, "# "@)
}

/// The pieces of a text are never none.
proof fn lemma_pieces_exist(s: Seq<char>, pat: Seq<char>, pos: int)
    requires
        0 <= pos <= s.len(),
        pat.len() > 0,
    ensures
        pieces_from(s, pat, pos).len() >= 1,
    decreases s.len() - pos,
{
    lemma_find_text(s, pat, pos);
    let at = find_text(s, pat, pos);
    if at < s.len() {
        lemma_pieces_exist(s, pat, at + pat.len());
    }
}

/// Cutting a log that was extended by a record and a delimiter line gives
/// the pieces of the log, with the record added to the last of them, and
/// a line feed as the new last piece.
proof fn lemma_pieces_of_extended_log(log: Seq<char>, config: Seq<char>, pos: int)
    requires
        0 <= pos <= log.len(),
        blank(pieces_from(log, "---"@, pos).last()),
        config.len() > 0,
        config.last() == '\n',
        !has_text(config, "---"@),
    ensures
        pieces_from(log + config + "---\n"@, "---"@, pos) == pieces_from(log, "---"@, pos).drop_last() + seq![
            pieces_from(log, "---"@, pos).last() + config,
            seq!['\n'],
        ],
    decreases log.len() - pos,
{
    reveal_strlit("---");
    reveal_strlit("---\n");
    let pat = "---"@;
    let all = log + config + "---\n"@;
    let a = log.len() as int;
    let b = config.len() as int;
    assert(pat.len() == 3 && pat[0] == '-' && pat[1] == '-' && pat[2] == '-');
    assert("---\n"@.len() == 4 && "---\n"@[0] == '-' && "---\n"@[1] == '-' && "---\n"@[2] == '-' && "---\n"@[3] == '\n');
    assert(all.len() == a + b + 4);
    lemma_find_text(log, pat, pos);
    let at = find_text(log, pat, pos);
    if at < a {
        assert(all.subrange(at, at + 3) =~= log.subrange(at, at + 3));
        assert forall|i: int| pos <= i < at implies !occurs_at(all, pat, i) by {
            assert(!occurs_at(log, pat, i));
            assert(all.subrange(i, i + 3) =~= log.subrange(i, i + 3));
        }
        lemma_find_text_is(all, pat, pos, at);
        lemma_pieces_exist(log, pat, at + 3);
        let rest = pieces_from(log, pat, at + 3);
        assert(pieces_from(log, pat, pos) == seq![log.subrange(pos, at)] + rest);
        assert((seq![log.subrange(pos, at)] + rest).last() == rest.last());
        lemma_pieces_of_extended_log(log, config, at + 3);
        assert(all.subrange(pos, at) =~= log.subrange(pos, at));
        assert((seq![log.subrange(pos, at)] + rest).drop_last() + seq![rest.last() + config, seq!['\n']] =~= seq![
            log.subrange(pos, at),
        ] + (rest.drop_last() + seq![rest.last() + config, seq!['\n']]));
    } else {
        let tail = log.subrange(pos, a);
        assert(pieces_from(log, pat, pos) == seq![tail]);
        assert(seq![tail].last() == tail);
        assert forall|i: int| pos <= i < a + b implies !occurs_at(all, pat, i) by {
            if occurs_at(all, pat, i) {
                let found = all.subrange(i, i + 3);
                assert(found[0] == all[i] && found[1] == all[i + 1] && found[2] == all[i + 2]);
                if i < a {
                    assert(all[i] == tail[i - pos]);
                    assert(is_space(tail[i - pos]));
                } else if i + 3 <= a + b {
                    assert(config.subrange(i - a, i - a + 3) =~= found);
                    assert(occurs_at(config, pat, i - a));
                } else {
                    assert(all[a + b - 1] == config[b - 1]);
                }
            }
        }
        assert(all.subrange(a + b, a + b + 3) =~= pat);
        lemma_find_text_is(all, pat, pos, a + b);
        assert(all.subrange(pos, a + b) =~= tail + config);
        assert(find_text(all, pat, a + b + 3) == all.len());
        assert(all.subrange(a + b + 3, all.len() as int) =~= seq!['\n']);
        assert(pieces_from(all, pat, a + b + 3) == seq![seq!['\n']]);
        assert(seq![tail].drop_last() + seq![tail + config, seq!['\n']] =~= seq![tail + config] + seq![seq!['\n']]);
    }
}

/// Taking out a pattern that does not occur changes nothing.
proof fn lemma_without_nothing(s: Seq<char>, pat: Seq<char>)
    requires
        pat.len() > 0,
        !has_text(s, pat),
    ensures
        without(s, pat) == s,
{
    assert forall|i: int| 0 <= i < s.len() implies !occurs_at(s, pat, i) by {}
    if s.len() > 0 {
        assert(!occurs_at(s, pat, s.len() as int));
    }
    lemma_find_text_is(s, pat, 0, s.len() as int);
    assert(s.subrange(0, s.len() as int) =~= s);
}

/// A blank text in front of a text without comment marks brings none in.
proof fn lemma_no_mark_after_blank(p: Seq<char>, c: Seq<char>)
    requires
        blank(p),
        !has_text(c, "# "@),
    ensures
        !has_text(p + c, "# "@),
{
    reveal_strlit("# ");
    let mark = "# "@;
    assert(mark.len() == 2 && mark[0] == '#' && mark[1] == ' ');
    assert forall|i: int| !occurs_at(p + c, mark, i) by {
        if occurs_at(p + c, mark, i) {
            let found = (p + c).subrange(i, i + 2);
            assert(found[0] == (p + c)[i]);
            if i < p.len() {
                assert(is_space(p[i]));
            } else {
                assert(c.subrange(i - p.len(), i - p.len() + 2) =~= found);
                assert(occurs_at(c, mark, i - p.len()));
            }
        }
    }
}

/// The first character that is no white space, in a blank text followed by
/// a text that starts with such a character, is the first of the latter.
proof fn lemma_first_mark_after_blank(p: Seq<char>, c: Seq<char>, j: int)
    requires
        blank(p),
        c.len() > 0,
        !is_space(c[0]),
        0 <= j <= p.len(),
    ensures
        first_mark(p + c, j) == p.len(),
    decreases p.len() - j,
{
    if j < p.len() {
        assert((p + c)[j] == p[j]);
        lemma_first_mark_after_blank(p, c, j + 1);
    } else {
        assert((p + c)[j] == c[0]);
    }
}

/// The end of the trimmed text does not depend on what stands in front of
/// a text that starts with a character that is no white space.
proof fn lemma_last_mark_after_prefix(p: Seq<char>, c: Seq<char>, to: int)
    requires
        c.len() > 0,
        !is_space(c[0]),
        1 <= to <= c.len(),
    ensures
        last_mark(p + c, p.len() + to) == p.len() + last_mark(c, to),
        last_mark(c, to) >= 1,
    decreases to,
{
    assert((p + c)[p.len() + to - 1] == c[to - 1]);
    if is_space(c[to - 1]) {
        lemma_last_mark_after_prefix(p, c, to - 1);
    }
}

/// Trimming ignores a blank text in front.
proof fn lemma_trim_after_blank(p: Seq<char>, c: Seq<char>)
    requires
        blank(p),
        c.len() > 0,
        !is_space(c[0]),
    ensures
        trimmed(p + c) == trimmed(c),
{
    lemma_first_mark_after_blank(p, c, 0);
    lemma_last_mark_after_prefix(p, c, c.len() as int);
    lemma_last_mark_after_prefix(Seq::empty(), c, c.len() as int);
    assert(Seq::<char>::empty() + c =~= c);
    let end = last_mark(c, c.len() as int);
    lemma_last_mark_bounded(c, c.len() as int);
    assert((p + c).subrange(p.len() as int, p.len() + end) =~= c.subrange(0, end));
}

/// A blank text has no first character that is no white space.
proof fn lemma_first_mark_of_blank(s: Seq<char>, j: int)
    requires
        blank(s),
        0 <= j <= s.len(),
    ensures
        first_mark(s, j) == s.len(),
    decreases s.len() - j,
{
    if j < s.len() {
        lemma_first_mark_of_blank(s, j + 1);
    }
}

/// The end of the trimmed text lies behind every character that is no
/// white space.
proof fn lemma_last_mark_reaches(s: Seq<char>, to: int, j: int)
    requires
        0 <= j < to <= s.len(),
        !is_space(s[j]),
    ensures
        last_mark(s, to) >= j + 1,
    decreases to,
{
    if is_space(s[to - 1]) {
        lemma_last_mark_reaches(s, to - 1, j);
    }
}

/// Nothing is left of a blank segment when it is cleaned, so it records no
/// step.
proof fn lemma_blank_is_cleaned_away(s: Seq<char>)
    requires
        blank(s),
    ensures
        cleaned(s) == Seq::<char>::empty(),
        !has_text(cleaned(s), "transformation: "@),
{
    reveal_strlit("# ");
    reveal_strlit("transformation: ");
    let mark = "# "@;
    assert(mark.len() == 2 && mark[0] == '#');
    assert forall|i: int| !occurs_at(s, mark, i) by {
        if occurs_at(s, mark, i) {
            assert(s.subrange(i, i + 2)[0] == s[i]);
            assert(is_space(s[i]));
        }
    }
    lemma_without_nothing(s, mark);
    lemma_first_mark_of_blank(s, 0);
    if s.len() > 0 {
        assert(last_mark(s, s.len() as int) <= s.len()) by {
            lemma_last_mark_bounded(s, s.len() as int);
        }
    }
    assert(trimmed(s) =~= Seq::<char>::empty());
    assert forall|i: int| !occurs_at(Seq::<char>::empty(), "transformation: "@, i) by {}
}

/// The end of the trimmed text lies within the text.
proof fn lemma_last_mark_bounded(s: Seq<char>, to: int)
    requires
        0 <= to <= s.len(),
    ensures
        0 <= last_mark(s, to) <= to,
    decreases to,
{
    if to > 0 && is_space(s[to - 1]) {
        lemma_last_mark_bounded(s, to - 1);
    }
}

/// The name of a kind is made of letters.
pub proof fn lemma_tag_is_letters(kind: TransformerKind)
    ensures
        kind.tag().len() > 0,
        forall|i: int| 0 <= i < kind.tag().len() ==> is_letter(#[trigger] kind.tag()[i]),
{
    reveal_strlit("AlignTransform");
    reveal_strlit("AppendTransform");
    reveal_strlit("AverageTransform");
    reveal_strlit("BaselineTransform");
    reveal_strlit("CalibrationTransform");
    reveal_strlit("CountConversionTransform");
    reveal_strlit("DespikeTransform");
    reveal_strlit("FinningTransform");
    reveal_strlit("IntegrateTransform");
    reveal_strlit("MaskTransform");
    reveal_strlit("NormalizeTransform");
    reveal_strlit("OffsetTransform");
    reveal_strlit("ReshapeTransform");
    reveal_strlit("SelectTransform");
    reveal_strlit("RamanShiftTransform");
    reveal_strlit("SubtractTransform");
}

/// A plain record, trimmed, declares its kind in its first line.
proof fn lemma_record_declares(config: Seq<char>, kind: TransformerKind, position: usize)
    requires
        plain_record(config, kind),
    ensures
        config.len() > 0,
        !is_space(config[0]),
        has_text(trimmed(config), "transformation: "@),
        segment_kind(trimmed(config), position) == Ok::<TransformerKind, Error>(kind),
{
    reveal_strlit("transformation: ");
    let key = "transformation: "@;
    let tag = kind.tag();
    let head = key + tag;
    lemma_tag_is_letters(kind);
    lemma_kind_names_lead_back(kind);
    assert(key.len() == 16 && key[0] == 't');
    assert(forall|i: int| 0 <= i < 16 ==> key[i] != '\n');
    assert(config[0] == config.subrange(0, head.len() as int)[0]);
    assert(head[0] == key[0]);
    assert(!is_space(config[0]));
    let h = head.len() as int;
    assert(config[h - 1] == config.subrange(0, h)[h - 1]);
    assert(head[h - 1] == tag[h - 1 - 16]);
    assert(is_letter(tag[h - 1 - 16]));
    assert(!is_space(config[h - 1]));
    lemma_last_mark_reaches(config, config.len() as int, h - 1);
    lemma_last_mark_bounded(config, config.len() as int);
    let end = last_mark(config, config.len() as int);
    assert(first_mark(config, 0) == 0);
    let text = trimmed(config);
    assert(text == config.subrange(0, end));
    assert(text.subrange(0, h) =~= head);
    assert(text.subrange(0, 16) =~= key);
    assert(occurs_at(text, key, 0));
    assert forall|i: int| 0 <= i < h implies text[i] != '\n' by {
        assert(text[i] == head[i]);
        if i >= 16 {
            assert(head[i] == tag[i - 16]);
            assert(is_letter(tag[i - 16]));
        } else {
            assert(head[i] == key[i]);
        }
    }
    if text.len() > h {
        assert(text[h] == config[h]);
    }
    lemma_find_from_is(text, 0, '\n', h);
    let line = text.subrange(0, h);
    assert(line =~= head);
    assert(line.subrange(0, 16) =~= key);
    assert forall|i: int| 16 <= i < line.len() implies is_letter(#[trigger] line[i]) by {
        assert(line[i] == tag[i - 16]);
    }
    assert(is_declaration(line));
    assert(line.subrange(16, line.len() as int) =~= tag);
    assert(declared_from(text, 0) == Some(tag));
}

/// Reading the segments from number `k` on is reading them up to number
/// `m`, and then, unless that failed, reading on from there.
proof fn lemma_recorded_split(segments: Seq<Seq<char>>, k: int, m: int, acc: Seq<(TransformerKind, Seq<char>)>)
    requires
        0 <= k <= m <= segments.len(),
    ensures
        recorded_from(segments, k, acc) == (match recorded_from(segments.take(m), k, acc) {
            Err(e) => Err(e),
            Ok(read) => recorded_from(segments, m, read),
        }),
    decreases m - k,
{
    let front = segments.take(m);
    if k < m {
        assert(front[k] == segments[k]);
        let text = cleaned(segments[k]);
        if !has_text(text, "transformation: "@) {
            lemma_recorded_split(segments, k + 1, m, acc);
        } else {
            match segment_kind(text, k as usize) {
                Err(e) => {},
                Ok(kind) => {
                    lemma_recorded_split(segments, k + 1, m, acc.push((kind, text)));
                },
            }
        }
    }
}

/// A log without anything in it can take a record, and records no step.
pub proof fn lemma_empty_log()
    ensures
        open_ended(Seq::<char>::empty()),
        recorded(Seq::<char>::empty()) == Ok::<Seq<(TransformerKind, Seq<char>)>, Error>(Seq::empty()),
{
    reveal_strlit("---");
    let none = Seq::<char>::empty();
    let pat = "---"@;
    assert(pat.len() == 3);
    assert(find_text(none, pat, 0) == 0);
    assert(none.subrange(0, 0) =~= none);
    assert(pieces(none, pat) == seq![none]);
    assert(seq![none].last() == none);
    lemma_blank_is_cleaned_away(none);
    let segments = seq![none];
    assert(recorded_from(segments, 1, Seq::empty()) == Ok::<Seq<(TransformerKind, Seq<char>)>, Error>(Seq::empty()));
    assert(segments[0] == none);
}

/// What is recorded can be read back: when a plain record of a
/// transformation and the delimiter line are added to a log that can take
/// a record, the log can take another record, and reading it gives the steps
/// it gave before and then the added one, with its kind and its text.
pub proof fn lemma_recorded_step_is_read_back(
    log: Seq<char>,
    steps: Seq<(TransformerKind, Seq<char>)>,
    config: Seq<char>,
    kind: TransformerKind,
)
    requires
        open_ended(log),
        recorded(log) == Ok::<Seq<(TransformerKind, Seq<char>)>, Error>(steps),
        plain_record(config, kind),
    ensures
        open_ended(log + config + "---\n"@),
        recorded(log + config + "---\n"@) == Ok::<Seq<(TransformerKind, Seq<char>)>, Error>(
            steps.push((kind, trimmed(config))),
        ),
{
    reveal_strlit("---");
    let pat = "---"@;
    assert(pat.len() == 3);
    let before = pieces(log, pat);
    let after = pieces(log + config + "---\n"@, pat);
    lemma_pieces_exist(log, pat, 0);
    lemma_pieces_of_extended_log(log, config, 0);
    let m = before.len() - 1;
    let tail = before.last();
    assert(after == before.drop_last() + seq![tail + config, seq!['\n']]);
    assert(after.len() == m + 2);
    assert(after[m] == tail + config);
    assert(after[m + 1] == seq!['\n']);
    assert(after.last() == seq!['\n']);
    assert(blank(seq!['\n']));
    assert(after.take(m) =~= before.take(m));
    // the log as it was: its last piece records nothing
    lemma_recorded_split(before, 0, m, Seq::empty());
    lemma_blank_is_cleaned_away(tail);
    assert(before[m] == tail);
    let front = recorded_from(before.take(m), 0, Seq::empty());
    assert(front == Ok::<Seq<(TransformerKind, Seq<char>)>, Error>(steps)) by {
        match front {
            Err(e) => {},
            Ok(read) => {
                assert(recorded_from(before, m, read) == recorded_from(before, m + 1, read));
            },
        }
    }
    // the log as it is: the record is read from the piece that it extends
    lemma_recorded_split(after, 0, m, Seq::empty());
    lemma_record_declares(config, kind, m as usize);
    lemma_no_mark_after_blank(tail, config);
    reveal_strlit("# ");
    lemma_without_nothing(tail + config, "# "@);
    lemma_trim_after_blank(tail, config);
    assert(cleaned(after[m]) == trimmed(config));
    lemma_blank_is_cleaned_away(seq!['\n']);
    let read = steps.push((kind, trimmed(config)));
    assert(recorded_from(after, m + 2, read) == Ok::<Seq<(TransformerKind, Seq<char>)>, Error>(read));
    assert(recorded_from(after, m + 1, read) == recorded_from(after, m + 2, read));
    assert(recorded_from(after, m, steps) == recorded_from(after, m + 1, read));
}

/// Whether `note` is a record of something other than a transformation, in
/// a form that reading the log passes over: its last character is a line
/// feed, and it holds neither `---` nor `# ` nor `transformation: `.
pub open spec fn plain_note(note: Seq<char>) -> bool {
    &&& note.len() > 0
    &&& note.last() == '\n'
    &&& !has_text(note, "---"@)
    &&& !has_text(note, "# "@)
    &&& !has_text(note, "transformation: "@)
}

/// A blank text in front of a text that does not declare a transformation
/// does not make it declare one, nor does trimming.
proof fn lemma_no_declaration_after_blank(p: Seq<char>, c: Seq<char>)
    requires
        blank(p),
        !has_text(c, "transformation: "@),
    ensures
        !has_text(trimmed(p + c), "transformation: "@),
{
    reveal_strlit("transformation: ");
    let key = "transformation: "@;
    assert(key.len() == 16 && key[0] == 't');
    let whole = p + c;
    let a = first_mark(whole, 0);
    let b = last_mark(whole, whole.len() as int);
    lemma_last_mark_bounded(whole, whole.len() as int);
    lemma_first_mark_bounded(whole, 0);
    let text = trimmed(whole);
    assert forall|i: int| !occurs_at(text, key, i) by {
        if occurs_at(text, key, i) {
            assert(a < b);
            let found = text.subrange(i, i + 16);
            assert(found[0] == text[i]);
            assert(text[i] == whole[a + i]);
            if a + i < p.len() {
                assert(is_space(p[a + i]));
            } else {
                assert(c.subrange(a + i - p.len(), a + i - p.len() + 16) =~= found);
                assert(occurs_at(c, key, a + i - p.len()));
            }
        }
    }
}

/// The start of the trimmed text lies within the text.
proof fn lemma_first_mark_bounded(s: Seq<char>, from: int)
    requires
        0 <= from <= s.len(),
    ensures
        from <= first_mark(s, from) <= s.len(),
    decreases s.len() - from,
{
    if from < s.len() && is_space(s[from]) {
        lemma_first_mark_bounded(s, from + 1);
    }
}

/// What is no record of a transformation is passed over: when a plain note
/// and the delimiter line are added to a log that can take a record, the
/// log can take another record, and reading it gives the steps it gave
/// before.
pub proof fn lemma_recorded_note_is_passed_over(
    log: Seq<char>,
    steps: Seq<(TransformerKind, Seq<char>)>,
    note: Seq<char>,
)
    requires
        open_ended(log),
        recorded(log) == Ok::<Seq<(TransformerKind, Seq<char>)>, Error>(steps),
        plain_note(note),
    ensures
        open_ended(log + note + "---\n"@),
        recorded(log + note + "---\n"@) == Ok::<Seq<(TransformerKind, Seq<char>)>, Error>(steps),
{
    reveal_strlit("---");
    let pat = "---"@;
    assert(pat.len() == 3);
    let before = pieces(log, pat);
    let after = pieces(log + note + "---\n"@, pat);
    lemma_pieces_exist(log, pat, 0);
    lemma_pieces_of_extended_log(log, note, 0);
    let m = before.len() - 1;
    let tail = before.last();
    assert(after == before.drop_last() + seq![tail + note, seq!['\n']]);
    assert(after.len() == m + 2);
    assert(after[m] == tail + note);
    assert(after[m + 1] == seq!['\n']);
    assert(after.last() == seq!['\n']);
    assert(blank(seq!['\n']));
    assert(after.take(m) =~= before.take(m));
    lemma_recorded_split(before, 0, m, Seq::empty());
    lemma_blank_is_cleaned_away(tail);
    assert(before[m] == tail);
    let front = recorded_from(before.take(m), 0, Seq::empty());
    assert(front == Ok::<Seq<(TransformerKind, Seq<char>)>, Error>(steps)) by {
        match front {
            Err(e) => {},
            Ok(read) => {
                assert(recorded_from(before, m, read) == recorded_from(before, m + 1, read));
            },
        }
    }
    lemma_recorded_split(after, 0, m, Seq::empty());
    lemma_no_mark_after_blank(tail, note);
    reveal_strlit("# ");
    lemma_without_nothing(tail + note, "# "@);
    lemma_no_declaration_after_blank(tail, note);
    lemma_blank_is_cleaned_away(seq!['\n']);
    assert(recorded_from(after, m + 2, steps) == Ok::<Seq<(TransformerKind, Seq<char>)>, Error>(steps));
    assert(recorded_from(after, m + 1, steps) == recorded_from(after, m + 2, steps));
    assert(recorded_from(after, m, steps) == recorded_from(after, m + 1, steps));
}

} // verus!
