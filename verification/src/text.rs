use vstd::prelude::*;

verus! {

/// Appends one character with `String::push`.
#[verifier::external_body]
pub(crate) fn push_char(s: &mut String, c: char)
    ensures
        final(s)@ == old(s)@.push(c),
{
    s.push(c);
}

/// The characters of `s`.
pub fn chars_of(s: &str) -> (v: Vec<char>)
    ensures
        v@ == s@,
{
    let mut v: Vec<char> = Vec::new();
    for c in it: s.chars()
        invariant
            v@ == s@.take(it.index() as int),
            it.seq() == s@,
    {
        v.push(c);
    }
    v
}

/// The characters `chars[from..to]` as a string.
pub fn text_of(chars: &[char], from: usize, to: usize) -> (s: String)
    requires
        from <= to <= chars.len(),
    ensures
        s@ == chars@.subrange(from as int, to as int),
{
    let mut s = String::new();
    let mut i = from;
    while i < to
        invariant
            from <= i <= to <= chars.len(),
            s@ == chars@.subrange(from as int, i as int),
        decreases to - i,
    {
        push_char(&mut s, chars[i]);
        proof {
            assert(chars@.subrange(from as int, i + 1) =~= chars@.subrange(from as int, i as int).push(chars@[i as int]));
        }
        i += 1;
    }
    s
}

/// The first position at or after `from` where `s` holds `c`; the length of
/// `s` if there is none.
pub open spec fn find_from(s: Seq<char>, from: int, c: char) -> int
    decreases s.len() - from,
{
    if from >= s.len() {
        s.len() as int
    } else if s[from] == c {
        from
    } else {
        find_from(s, from + 1, c)
    }
}

/// [`find_from`] yields a position from `from` on, no character before it is
/// `c`, and unless it is the length, the character there is `c`.
pub proof fn lemma_find_from(s: Seq<char>, from: int, c: char)
    requires
        0 <= from <= s.len(),
    ensures
        from <= find_from(s, from, c) <= s.len(),
        forall|i: int| from <= i < find_from(s, from, c) ==> s[i] != c,
        find_from(s, from, c) < s.len() ==> s[find_from(s, from, c)] == c,
    decreases s.len() - from,
{
    if from < s.len() && s[from] != c {
        lemma_find_from(s, from + 1, c);
    }
}

/// Computes [`find_from`].
pub fn find_char(chars: &[char], from: usize, c: char) -> (r: usize)
    requires
        from <= chars.len(),
    ensures
        r == find_from(chars@, from as int, c),
        from <= r <= chars.len(),
{
    let mut i = from;
    while i < chars.len() && chars[i] != c
        invariant
            from <= i <= chars.len(),
            find_from(chars@, from as int, c) == find_from(chars@, i as int, c),
        decreases chars.len() - i,
    {
        i += 1;
    }
    i
}

/// Whether `pat` stands in `s` at position `i`.
pub open spec fn occurs_at(s: Seq<char>, pat: Seq<char>, i: int) -> bool {
    0 <= i && i + pat.len() <= s.len() && s.subrange(i, i + pat.len()) == pat
}

/// The first position at or after `from` where `pat` stands in `s`; the
/// length of `s` if there is none.
pub open spec fn find_text(s: Seq<char>, pat: Seq<char>, from: int) -> int
    decreases s.len() - from,
{
    if from < 0 || from + pat.len() > s.len() {
        s.len() as int
    } else if occurs_at(s, pat, from) || from == s.len() {
        from
    } else {
        find_text(s, pat, from + 1)
    }
}

/// [`find_text`] yields either the length of `s` or the first position from
/// `from` on where `pat` stands.
pub proof fn lemma_find_text(s: Seq<char>, pat: Seq<char>, from: int)
    requires
        0 <= from <= s.len(),
    ensures
        from <= find_text(s, pat, from) <= s.len(),
        find_text(s, pat, from) < s.len() ==> occurs_at(s, pat, find_text(s, pat, from)),
        pat.len() > 0 && find_text(s, pat, from) < s.len() ==> find_text(s, pat, from) + pat.len() <= s.len(),
        forall|i: int| from <= i < find_text(s, pat, from) ==> !occurs_at(s, pat, i),
    decreases s.len() - from,
{
    if from + pat.len() <= s.len() && !occurs_at(s, pat, from) && from < s.len() {
        lemma_find_text(s, pat, from + 1);
    }
}

/// A position `r` from `from` on is what [`find_text`] yields if `pat` does
/// not stand anywhere from `from` up to `r`, and `r` is the length of `s` or
/// `pat` stands at `r`.
pub proof fn lemma_find_text_is(s: Seq<char>, pat: Seq<char>, from: int, r: int)
    requires
        0 <= from <= r <= s.len(),
        forall|i: int| from <= i < r ==> !occurs_at(s, pat, i),
        r < s.len() ==> occurs_at(s, pat, r),
    ensures
        find_text(s, pat, from) == r,
    decreases r - from,
{
    if from + pat.len() > s.len() {
    } else if occurs_at(s, pat, from) || from == s.len() {
    } else {
        lemma_find_text_is(s, pat, from + 1, r);
    }
}

/// A position `r` from `from` on is what [`find_from`] yields if `c` does
/// not stand anywhere from `from` up to `r`, and `r` is the length of `s` or
/// `c` stands at `r`.
pub proof fn lemma_find_from_is(s: Seq<char>, from: int, c: char, r: int)
    requires
        0 <= from <= r <= s.len(),
        forall|i: int| from <= i < r ==> s[i] != c,
        r < s.len() ==> s[r] == c,
    ensures
        find_from(s, from, c) == r,
    decreases r - from,
{
    if from < r {
        lemma_find_from_is(s, from + 1, c, r);
    }
}

/// Whether `pat` stands somewhere in `s`.
pub open spec fn has_text(s: Seq<char>, pat: Seq<char>) -> bool {
    exists|i: int| occurs_at(s, pat, i)
}

/// Whether `pat` stands in `chars` at position `i`.
pub fn stands_at(chars: &[char], pat: &[char], i: usize) -> (b: bool)
    ensures
        b == occurs_at(chars@, pat@, i as int),
{
    if pat.len() > chars.len() || i > chars.len() - pat.len() {
        return false;
    }
    let mut k: usize = 0;
    while k < pat.len()
        invariant
            k <= pat.len(),
            i + pat.len() <= chars.len(),
            forall|j: int| 0 <= j < k ==> chars@[i + j] == pat@[j],
        decreases pat.len() - k,
    {
        if chars[i + k] != pat[k] {
            proof {
                assert(chars@.subrange(i as int, i + pat.len())[k as int] == chars@[i + k]);
            }
            return false;
        }
        k += 1;
    }
    proof {
        assert(chars@.subrange(i as int, i + pat.len()) =~= pat@);
    }
    true
}

/// Computes [`find_text`].
pub fn find_pattern(chars: &[char], pat: &[char], from: usize) -> (r: usize)
    requires
        from <= chars.len(),
    ensures
        r == find_text(chars@, pat@, from as int),
        from <= r <= chars.len(),
{
    let n = chars.len();
    let mut i = from;
    while i < n && pat.len() <= n - i
        invariant
            n == chars.len(),
            from <= i <= n,
            find_text(chars@, pat@, from as int) == find_text(chars@, pat@, i as int),
        decreases n - i,
    {
        if stands_at(chars, pat, i) {
            return i;
        }
        i += 1;
    }
    n
}

/// Whether `pat` stands somewhere in `chars`.
pub fn contains_pattern(chars: &[char], pat: &[char]) -> (b: bool)
    ensures
        b == has_text(chars@, pat@),
{
    let n = chars.len();
    let mut i: usize = 0;
    while i <= n
        invariant
            n == chars.len(),
            i <= n + 1,
            forall|j: int| 0 <= j < i ==> !occurs_at(chars@, pat@, j),
        decreases n + 1 - i,
    {
        if stands_at(chars, pat, i) {
            return true;
        }
        if i == n {
            proof {
                assert forall|j: int| !occurs_at(chars@, pat@, j) by {
                    if 0 <= j <= n {
                        assert(!occurs_at(chars@, pat@, j));
                    }
                }
            }
            return false;
        }
        i += 1;
    }
    false
}

/// The pieces of `s` between the occurrences of `pat` from position `pos`
/// on, where each occurrence starts behind the one before it.
pub open spec fn pieces_from(s: Seq<char>, pat: Seq<char>, pos: int) -> Seq<Seq<char>>
    decreases s.len() - pos,
    via pieces_from_decreases
{
    if pos < 0 || pos > s.len() || pat.len() == 0 {
        Seq::empty()
    } else {
        let at = find_text(s, pat, pos);
        if at >= s.len() {
            seq![s.subrange(pos, s.len() as int)]
        } else {
            seq![s.subrange(pos, at)] + pieces_from(s, pat, at + pat.len())
        }
    }
}

#[via_fn]
proof fn pieces_from_decreases(s: Seq<char>, pat: Seq<char>, pos: int) {
    if 0 <= pos <= s.len() {
        lemma_find_text(s, pat, pos);
    }
}

/// The pieces into which the occurrences of `pat` cut `s`.
pub open spec fn pieces(s: Seq<char>, pat: Seq<char>) -> Seq<Seq<char>> {
    pieces_from(s, pat, 0)
}

/// Cuts `chars` at the occurrences of `pat`.
pub fn split_at_pattern(chars: &[char], pat: &[char]) -> (r: Vec<Vec<char>>)
    requires
        pat.len() > 0,
    ensures
        r@.map_values(|v: Vec<char>| v@) == pieces(chars@, pat@),
{
    let n = chars.len();
    let mut out: Vec<Vec<char>> = Vec::new();
    let mut pos: usize = 0;
    let mut done = false;
    while !done
        invariant
            n == chars.len(),
            pat.len() > 0,
            pos <= n,
            !done ==> pieces(chars@, pat@) == out@.map_values(|v: Vec<char>| v@) + pieces_from(chars@, pat@, pos as int),
            done ==> pieces(chars@, pat@) == out@.map_values(|v: Vec<char>| v@),
        decreases n - pos + (if done { 0int } else { 1int }),
    {
        let at = find_pattern(chars, pat, pos);
        proof {
            lemma_find_text(chars@, pat@, pos as int);
        }
        let ghost before = out@.map_values(|v: Vec<char>| v@);
        if at >= n {
            let piece = copy_range(chars, pos, n);
            out.push(piece);
            proof {
                assert(out@.map_values(|v: Vec<char>| v@) =~= before + seq![chars@.subrange(pos as int, n as int)]);
            }
            done = true;
        } else {
            let piece = copy_range(chars, pos, at);
            out.push(piece);
            proof {
                assert(out@.map_values(|v: Vec<char>| v@) =~= before + seq![chars@.subrange(pos as int, at as int)]);
                assert(before + (seq![chars@.subrange(pos as int, at as int)] + pieces_from(
                    chars@,
                    pat@,
                    at + pat.len(),
                )) =~= (before + seq![chars@.subrange(pos as int, at as int)]) + pieces_from(chars@, pat@, at + pat.len()));
            }
            pos = at + pat.len();
        }
    }
    out
}

/// A copy of `chars[from..to]`.
pub fn copy_range(chars: &[char], from: usize, to: usize) -> (v: Vec<char>)
    requires
        from <= to <= chars.len(),
    ensures
        v@ == chars@.subrange(from as int, to as int),
{
    let mut v: Vec<char> = Vec::new();
    let mut i = from;
    while i < to
        invariant
            from <= i <= to <= chars.len(),
            v@ == chars@.subrange(from as int, i as int),
        decreases to - i,
    {
        v.push(chars[i]);
        proof {
            assert(chars@.subrange(from as int, i + 1) =~= chars@.subrange(from as int, i as int).push(chars@[i as int]));
        }
        i += 1;
    }
    v
}

/// `s` from position `pos` on without the occurrences of `pat`, where each
/// occurrence starts behind the one before it.
pub open spec fn without_from(s: Seq<char>, pat: Seq<char>, pos: int) -> Seq<char>
    decreases s.len() - pos,
    via without_from_decreases
{
    if pos < 0 || pos > s.len() || pat.len() == 0 {
        Seq::empty()
    } else {
        let at = find_text(s, pat, pos);
        if at >= s.len() {
            s.subrange(pos, s.len() as int)
        } else {
            s.subrange(pos, at) + without_from(s, pat, at + pat.len())
        }
    }
}

#[via_fn]
proof fn without_from_decreases(s: Seq<char>, pat: Seq<char>, pos: int) {
    if 0 <= pos <= s.len() {
        lemma_find_text(s, pat, pos);
    }
}

/// `s` without the occurrences of `pat`.
pub open spec fn without(s: Seq<char>, pat: Seq<char>) -> Seq<char> {
    without_from(s, pat, 0)
}

/// Takes every occurrence of `pat` out of `chars`.
pub fn remove_pattern(chars: &[char], pat: &[char]) -> (r: Vec<char>)
    requires
        pat.len() > 0,
    ensures
        r@ == without(chars@, pat@),
{
    let n = chars.len();
    let mut out: Vec<char> = Vec::new();
    let mut pos: usize = 0;
    let mut done = false;
    while !done
        invariant
            n == chars.len(),
            pat.len() > 0,
            pos <= n,
            !done ==> without(chars@, pat@) == out@ + without_from(chars@, pat@, pos as int),
            done ==> without(chars@, pat@) == out@,
        decreases n - pos + (if done { 0int } else { 1int }),
    {
        let at = find_pattern(chars, pat, pos);
        proof {
            lemma_find_text(chars@, pat@, pos as int);
        }
        let ghost before = out@;
        let mut i = pos;
        while i < at
            invariant
                pos <= i <= at <= n,
                n == chars.len(),
                out@ == before + chars@.subrange(pos as int, i as int),
            decreases at - i,
        {
            out.push(chars[i]);
            proof {
                assert(chars@.subrange(pos as int, i + 1) =~= chars@.subrange(pos as int, i as int).push(chars@[i as int]));
                assert(before + chars@.subrange(pos as int, i as int).push(chars@[i as int]) =~= (before + chars@.subrange(
                    pos as int,
                    i as int,
                )).push(chars@[i as int]));
            }
            i += 1;
        }
        if at >= n {
            done = true;
        } else {
            proof {
                assert(before + (chars@.subrange(pos as int, at as int) + without_from(chars@, pat@, at + pat.len()))
                    =~= (before + chars@.subrange(pos as int, at as int)) + without_from(chars@, pat@, at + pat.len()));
            }
            pos = at + pat.len();
        }
    }
    out
}

/// Whether `c` is white space: a blank, a tab, a line break or one of the
/// other characters that Unicode lists as `White_Space`.
pub open spec fn is_space(c: char) -> bool {
    let u = c as u32;
    (9 <= u <= 13) || u == 0x20 || u == 0x85 || u == 0xA0 || u == 0x1680 || (0x2000 <= u <= 0x200A) || u == 0x2028 || u
        == 0x2029 || u == 0x202F || u == 0x205F || u == 0x3000
}

/// Decides [`is_space`].
pub fn is_white_space(c: char) -> (b: bool)
    ensures
        b == is_space(c),
{
    let u = c as u32;
    (9 <= u && u <= 13) || u == 0x20 || u == 0x85 || u == 0xA0 || u == 0x1680 || (0x2000 <= u && u <= 0x200A) || u
        == 0x2028 || u == 0x2029 || u == 0x202F || u == 0x205F || u == 0x3000
}

/// The first position at or after `from` that holds no white space; the
/// length of `s` if there is none.
pub open spec fn first_mark(s: Seq<char>, from: int) -> int
    decreases s.len() - from,
{
    if from < 0 || from >= s.len() {
        s.len() as int
    } else if !is_space(s[from]) {
        from
    } else {
        first_mark(s, from + 1)
    }
}

/// The position behind the last character before `to` that is no white
/// space; 0 if there is none.
pub open spec fn last_mark(s: Seq<char>, to: int) -> int
    decreases to,
{
    if to <= 0 || to > s.len() {
        0
    } else if !is_space(s[to - 1]) {
        to
    } else {
        last_mark(s, to - 1)
    }
}

/// `s` without the white space at its two ends.
pub open spec fn trimmed(s: Seq<char>) -> Seq<char> {
    let a = first_mark(s, 0);
    let b = last_mark(s, s.len() as int);
    if a >= b { Seq::empty() } else { s.subrange(a, b) }
}

/// Takes the white space off the two ends of `chars`.
pub fn trim_chars(chars: &[char]) -> (r: Vec<char>)
    ensures
        r@ == trimmed(chars@),
{
    let n = chars.len();
    let mut a: usize = 0;
    while a < n && is_white_space(chars[a])
        invariant
            a <= n,
            n == chars.len(),
            first_mark(chars@, 0) == first_mark(chars@, a as int),
        decreases n - a,
    {
        a += 1;
    }
    let mut b: usize = n;
    while b > 0 && is_white_space(chars[b - 1])
        invariant
            b <= n,
            n == chars.len(),
            last_mark(chars@, n as int) == last_mark(chars@, b as int),
        decreases b,
    {
        b -= 1;
    }
    if a >= b {
        let v: Vec<char> = Vec::new();
        proof {
            assert(v@ =~= Seq::empty());
        }
        v
    } else {
        copy_range(chars, a, b)
    }
}

/// Whether `c` is one of the letters `a` to `z` or `A` to `Z`.
pub open spec fn is_letter(c: char) -> bool {
    ('a' <= c && c <= 'z') || ('A' <= c && c <= 'Z')
}

/// Decides [`is_letter`].
pub fn is_ascii_letter(c: char) -> (b: bool)
    ensures
        b == is_letter(c),
{
    ('a' <= c && c <= 'z') || ('A' <= c && c <= 'Z')
}

/// `line` without a carriage return at its end.
pub open spec fn without_return(line: Seq<char>) -> Seq<char> {
    if line.len() > 0 && line[line.len() - 1] == '\r' {
        line.drop_last()
    } else {
        line
    }
}

/// The lines of `s` from position `pos` on. A line ends with a line feed,
/// or with a carriage return and a line feed, which are not part of it;
/// the last line may end with the text.
pub open spec fn lines_from(s: Seq<char>, pos: int) -> Seq<Seq<char>>
    decreases s.len() - pos,
    via lines_from_decreases
{
    if pos < 0 || pos >= s.len() {
        Seq::empty()
    } else {
        let end = find_from(s, pos, '\n');
        if end >= s.len() {
            seq![s.subrange(pos, s.len() as int)]
        } else {
            seq![without_return(s.subrange(pos, end))] + lines_from(s, end + 1)
        }
    }
}

#[via_fn]
proof fn lines_from_decreases(s: Seq<char>, pos: int) {
    if 0 <= pos <= s.len() {
        lemma_find_from(s, pos, '\n');
    }
}

/// The lines of `s`.
pub open spec fn lines_of(s: Seq<char>) -> Seq<Seq<char>> {
    lines_from(s, 0)
}

/// Cuts `chars` into its lines.
pub fn split_lines(chars: &[char]) -> (r: Vec<Vec<char>>)
    ensures
        r@.map_values(|v: Vec<char>| v@) == lines_of(chars@),
{
    let n = chars.len();
    let mut out: Vec<Vec<char>> = Vec::new();
    let mut pos: usize = 0;
    while pos < n
        invariant
            n == chars.len(),
            pos <= n,
            lines_of(chars@) == out@.map_values(|v: Vec<char>| v@) + lines_from(chars@, pos as int),
        decreases n - pos,
    {
        let end = find_char(chars, pos, '\n');
        let ghost before = out@.map_values(|v: Vec<char>| v@);
        if end >= n {
            let line = copy_range(chars, pos, n);
            out.push(line);
            proof {
                assert(out@.map_values(|v: Vec<char>| v@) =~= before + seq![chars@.subrange(pos as int, n as int)]);
                assert(lines_from(chars@, n as int) =~= Seq::<Seq<char>>::empty());
            }
            pos = n;
        } else {
            let stop = if end > pos && chars[end - 1] == '\r' { end - 1 } else { end };
            let line = copy_range(chars, pos, stop);
            proof {
                let whole = chars@.subrange(pos as int, end as int);
                if end > pos {
                    assert(whole[whole.len() - 1] == chars@[end - 1]);
                }
                assert(line@ =~= without_return(whole));
            }
            out.push(line);
            proof {
                assert(out@.map_values(|v: Vec<char>| v@) =~= before + seq![
                    without_return(chars@.subrange(pos as int, end as int)),
                ]);
                assert(before + (seq![without_return(chars@.subrange(pos as int, end as int))] + lines_from(
                    chars@,
                    end + 1,
                )) =~= (before + seq![without_return(chars@.subrange(pos as int, end as int))]) + lines_from(
                    chars@,
                    end + 1,
                ));
            }
            pos = end + 1;
        }
    }
    proof {
        assert(lines_from(chars@, pos as int) =~= Seq::<Seq<char>>::empty());
    }
    out
}

/// Appends the characters of `chars` to `s`.
pub fn push_chars(s: &mut String, chars: &[char])
    ensures
        final(s)@ == old(s)@ + chars@,
{
    let mut i: usize = 0;
    while i < chars.len()
        invariant
            i <= chars.len(),
            s@ == old(s)@ + chars@.subrange(0, i as int),
        decreases chars.len() - i,
    {
        push_char(s, chars[i]);
        proof {
            assert(chars@.subrange(0, i + 1) =~= chars@.subrange(0, i as int).push(chars@[i as int]));
            assert(old(s)@ + chars@.subrange(0, i as int).push(chars@[i as int]) =~= (old(s)@ + chars@.subrange(
                0,
                i as int,
            )).push(chars@[i as int]));
        }
        i += 1;
    }
    proof {
        assert(chars@.subrange(0, chars.len() as int) =~= chars@);
    }
}

} // verus!
