use crate::text::{chars_of, copy_range, find_char, find_from, is_letter, lemma_find_from, text_of};
use vstd::prelude::*;
use vstd::string::*;

verus! {

/// One element of an XML document.
#[derive(Debug)]
pub struct XMLTag {
    pub name: String,
    /// The attributes of the opening tag as (key, value); no key twice.
    pub parameters: Vec<(String, String)>,
    /// The text directly inside the element.
    pub contents: String,
    pub children: Vec<XMLTag>,
}

/// Why a text could not be read as an XML document.
#[derive(Debug, Clone, Copy, PartialEq, Eq, Structural)]
pub enum XmlError {
    /// The text ended before the root element was closed.
    DataDepleted,
    /// A closing tag came while no element was open.
    StackDepleted,
}

/// What an [`XMLTag`] holds, as mathematical values.
#[verifier::ext_equal]
pub struct XmlNode {
    pub name: Seq<char>,
    pub parameters: Seq<(Seq<char>, Seq<char>)>,
    pub contents: Seq<char>,
    pub children: Seq<XmlNode>,
}

/// A list of (key, value) texts as mathematical values.
pub open spec fn entries_of(v: Seq<(String, String)>) -> Seq<(Seq<char>, Seq<char>)> {
    Seq::new(v.len(), |i: int| (v[i].0@, v[i].1@))
}

impl XMLTag {
    /// The element and everything below it as mathematical values.
    pub open spec fn model(&self) -> XmlNode
        decreases self,
        via Self::model_decreases
    {
        XmlNode {
            name: self.name@,
            parameters: entries_of(self.parameters@),
            contents: self.contents@,
            children: Seq::new(
                self.children.len() as nat,
                |i: int|
                    if 0 <= i < self.children.len() {
                        self.children[i].model()
                    } else {
                        arbitrary()
                    },
            ),
        }
    }

    #[via_fn]
    proof fn model_decreases(&self) {
        broadcast use vstd::std_specs::vec::axiom_vec_index_decreases;

    }
}

/// The elements of `v` as mathematical values.
pub open spec fn models_of(v: Seq<XMLTag>) -> Seq<XmlNode> {
    Seq::new(v.len(), |i: int| v[i].model())
}

/// `v` without the double quotes around it, if it stands between two.
pub open spec fn unquoted(v: Seq<char>) -> Seq<char> {
    if v.len() >= 2 && v[0] == '"' && v[v.len() - 1] == '"' {
        v.subrange(1, v.len() - 1)
    } else {
        v
    }
}

/// The name in the text of an opening tag: what stands before the first
/// blank.
pub open spec fn tag_name(raw: Seq<char>) -> Seq<char> {
    raw.subrange(0, find_from(raw, 0, ' '))
}

/// The attribute that one blank-separated part of an opening tag declares:
/// `key=value` with the value unquoted, or a key alone with an empty value.
pub open spec fn parameter_of(part: Seq<char>) -> (Seq<char>, Seq<char>) {
    let eq = find_from(part, 0, '=');
    if eq < part.len() {
        (part.subrange(0, eq), unquoted(part.subrange(eq + 1, part.len() as int)))
    } else {
        (part, Seq::empty())
    }
}

/// The first position at or after `from` whose entry has the key `key`; the
/// length of `entries` if there is none.
pub open spec fn position_of<V>(entries: Seq<(Seq<char>, V)>, key: Seq<char>, from: int) -> int
    decreases entries.len() - from,
{
    if from >= entries.len() {
        entries.len() as int
    } else if entries[from].0 == key {
        from
    } else {
        position_of(entries, key, from + 1)
    }
}

/// `entries` after `entry` was stored: in place of the entry with the same
/// key, or else at the end.
pub open spec fn with_entry<V>(entries: Seq<(Seq<char>, V)>, entry: (Seq<char>, V)) -> Seq<(Seq<char>, V)> {
    let i = position_of(entries, entry.0, 0);
    if i < entries.len() {
        entries.update(i, entry)
    } else {
        entries.push(entry)
    }
}

/// The attributes declared by the blank-separated parts of `raw` from
/// position `pos` on, stored one after the other into `acc`. A part that is
/// a lone `/` ends the list.
pub open spec fn parameters_from(raw: Seq<char>, pos: int, acc: Seq<(Seq<char>, Seq<char>)>) -> Seq<
    (Seq<char>, Seq<char>),
>
    decreases raw.len() - pos,
    via parameters_from_decreases
{
    if pos < 0 || pos > raw.len() {
        acc
    } else {
        let end = find_from(raw, pos, ' ');
        let part = raw.subrange(pos, end);
        if part == seq!['/'] {
            acc
        } else {
            let next = with_entry(acc, parameter_of(part));
            if end >= raw.len() {
                next
            } else {
                parameters_from(raw, end + 1, next)
            }
        }
    }
}

#[via_fn]
proof fn parameters_from_decreases(raw: Seq<char>, pos: int, acc: Seq<(Seq<char>, Seq<char>)>) {
    if 0 <= pos <= raw.len() {
        lemma_find_from(raw, pos, ' ');
    }
}

/// The attributes in the text of an opening tag.
pub open spec fn tag_parameters(raw: Seq<char>) -> Seq<(Seq<char>, Seq<char>)> {
    let end = find_from(raw, 0, ' ');
    if end >= raw.len() {
        Seq::empty()
    } else {
        parameters_from(raw, end + 1, Seq::empty())
    }
}

/// Stores `key` with `value`, in place of an entry with the same key if
/// there is one.
fn put_entry(entries: &mut Vec<(String, String)>, key: String, value: String)
    ensures
        entries_of(final(entries)@) == with_entry(entries_of(old(entries)@), (key@, value@)),
{
    let ghost before = entries_of(entries@);
    let mut i: usize = 0;
    while i < entries.len()
        invariant
            i <= entries.len(),
            entries@ == old(entries)@,
            before == entries_of(entries@),
            position_of(before, key@, 0) == position_of(before, key@, i as int),
        decreases entries.len() - i,
    {
        if entries[i].0 == key {
            proof {
                assert(before[i as int].0 == key@);
            }
            entries.set(i, (key, value));
            proof {
                assert(entries_of(entries@) =~= before.update(i as int, (key@, value@)));
            }
            return ;
        }
        proof {
            assert(before[i as int].0 != key@);
        }
        i += 1;
    }
    entries.push((key, value));
    proof {
        assert(entries_of(entries@) =~= before.push((key@, value@)));
    }
}

/// Reads one blank-separated part of an opening tag as an attribute.
fn read_parameter(part: &[char]) -> (r: (String, String))
    ensures
        (r.0@, r.1@) == parameter_of(part@),
{
    let n = part.len();
    let eq = find_char(part, 0, '=');
    if eq < n {
        let key = text_of(part, 0, eq);
        let a = eq + 1;
        if n - a >= 2 && part[a] == '"' && part[n - 1] == '"' {
            let value = text_of(part, a + 1, n - 1);
            proof {
                let v = part@.subrange(a as int, n as int);
                assert(v[0] == part@[a as int]);
                assert(v[v.len() - 1] == part@[n - 1]);
                assert(v.subrange(1, v.len() - 1) =~= part@.subrange(a + 1, n - 1));
            }
            (key, value)
        } else {
            let value = text_of(part, a, n);
            proof {
                let v = part@.subrange(a as int, n as int);
                if v.len() >= 2 {
                    assert(v[0] == part@[a as int]);
                    assert(v[v.len() - 1] == part@[n - 1]);
                }
            }
            (key, value)
        }
    } else {
        let key = text_of(part, 0, n);
        proof {
            assert(part@.subrange(0, n as int) =~= part@);
        }
        (key, String::new())
    }
}

/// Splits the text of an opening tag, without its angle brackets, into the
/// name and the attributes.
pub fn read_tag(raw: &[char]) -> (r: (String, Vec<(String, String)>))
    ensures
        r.0@ == tag_name(raw@),
        entries_of(r.1@) == tag_parameters(raw@),
{
    let n = raw.len();
    let first = find_char(raw, 0, ' ');
    let name = text_of(raw, 0, first);
    let mut params: Vec<(String, String)> = Vec::new();
    proof {
        assert(entries_of(params@) =~= Seq::empty());
    }
    if first < n {
        let mut pos = first + 1;
        let mut done = false;
        while !done
            invariant
                n == raw.len(),
                0 <= pos <= n,
                !done ==> tag_parameters(raw@) == parameters_from(raw@, pos as int, entries_of(params@)),
                done ==> tag_parameters(raw@) == entries_of(params@),
            decreases n - pos + (if done { 0int } else { 1int }),
        {
            let end = find_char(raw, pos, ' ');
            let part = copy_range(raw, pos, end);
            if part.len() == 1 && part[0] == '/' {
                proof {
                    assert(part@ =~= seq!['/']);
                }
                done = true;
            } else {
                proof {
                    if part@ == seq!['/'] {
                        assert(part@.len() == 1 && part@[0] == '/');
                    }
                }
                let (key, value) = read_parameter(part.as_slice());
                put_entry(&mut params, key, value);
                if end >= n {
                    done = true;
                } else {
                    pos = end + 1;
                }
            }
        }
    }
    (name, params)
}

/// Splits the text of an opening tag, without its angle brackets, into the
/// name and the attributes: the name is what stands before the first blank;
/// each further blank-separated part is `key=value` or a key alone, up to a
/// part that is a lone `/`. A key that comes twice keeps its last value.
pub fn parse_tagname(raw_contents: &str) -> (r: (String, Vec<(String, String)>))
    ensures
        r.0@ == tag_name(raw_contents@),
        entries_of(r.1@) == tag_parameters(raw_contents@),
{
    let chars = chars_of(raw_contents);
    read_tag(chars.as_slice())
}

/// Takes away one pair of double quotes around `s`, if there is one.
pub fn trim_quotes(s: &str) -> (r: &str)
    ensures
        r@ == unquoted(s@),
{
    let chars = chars_of(s);
    let n = chars.len();
    if n >= 2 && chars[0] == '"' && chars[n - 1] == '"' {
        s.substring_char(1, n - 1)
    } else {
        s
    }
}

/// A new element as an opening tag with the text `raw` declares it.
pub open spec fn opened(raw: Seq<char>) -> XmlNode {
    XmlNode { name: tag_name(raw), parameters: tag_parameters(raw), contents: Seq::empty(), children: Seq::empty() }
}

/// The open elements after `node` became a child of the innermost one.
/// Without an open element it is dropped.
pub open spec fn add_child(stack: Seq<XmlNode>, node: XmlNode) -> Seq<XmlNode> {
    if stack.len() == 0 {
        stack
    } else {
        let top = stack[stack.len() - 1];
        stack.update(stack.len() - 1, XmlNode { children: top.children.push(node), ..top })
    }
}

/// The open elements after `text` was added to the contents of the
/// innermost one. Without an open element it is dropped.
pub open spec fn add_text(stack: Seq<XmlNode>, text: Seq<char>) -> Seq<XmlNode> {
    if stack.len() == 0 {
        stack
    } else {
        let top = stack[stack.len() - 1];
        stack.update(stack.len() - 1, XmlNode { contents: top.contents + text, ..top })
    }
}

/// The position behind the first `c` at or after `from`; the length of `s`
/// if there is none.
pub open spec fn behind(s: Seq<char>, from: int, c: char) -> int {
    let end = find_from(s, from, c);
    if end < s.len() { end + 1 } else { end }
}

/// Reads `s` from position `pos` on, with the elements in `stack` open
/// (outermost first), up to the tag that closes the outermost element.
///
/// What stands at `pos` is told by two characters. `<` and a letter open an
/// element, or, if the tag ends in `/`, make a complete child. `<` and `/`
/// close the innermost element. Anything else is text up to the next `<`.
pub open spec fn parse_from(s: Seq<char>, pos: int, stack: Seq<XmlNode>) -> Result<XmlNode, XmlError>
    decreases s.len() - pos,
    via parse_from_decreases
{
    if pos < 0 || pos + 1 >= s.len() {
        Err(XmlError::DataDepleted)
    } else if s[pos] == '<' && is_letter(s[pos + 1]) {
        let raw = s.subrange(pos + 1, find_from(s, pos + 1, '>'));
        if raw[raw.len() - 1] == '/' {
            parse_from(s, behind(s, pos + 1, '>'), add_child(stack, opened(raw)))
        } else {
            parse_from(s, behind(s, pos + 1, '>'), stack.push(opened(raw)))
        }
    } else if s[pos] == '<' && s[pos + 1] == '/' {
        if stack.len() == 0 {
            Err(XmlError::StackDepleted)
        } else if stack.len() == 1 {
            Ok(stack[0])
        } else {
            parse_from(s, behind(s, pos + 1, '>'), add_child(stack.drop_last(), stack[stack.len() - 1]))
        }
    } else {
        parse_from(s, find_from(s, pos + 1, '<'), add_text(stack, s.subrange(pos, find_from(s, pos + 1, '<'))))
    }
}

#[via_fn]
proof fn parse_from_decreases(s: Seq<char>, pos: int, stack: Seq<XmlNode>) {
    if 0 <= pos && pos + 1 < s.len() {
        lemma_find_from(s, pos + 1, '>');
        lemma_find_from(s, pos + 1, '<');
    }
}

/// The root element of the document in `s`: reading starts at the first `<`.
pub open spec fn parse(s: Seq<char>) -> Result<XmlNode, XmlError> {
    parse_from(s, find_from(s, 0, '<'), Seq::empty())
}

/// Makes `tag` the last child of the innermost open element, if there is one.
fn attach(stack: &mut Vec<XMLTag>, tag: XMLTag)
    ensures
        models_of(final(stack)@) == add_child(models_of(old(stack)@), tag.model()),
{
    let ghost before = models_of(stack@);
    match stack.pop() {
        Some(parent) => {
            let ghost rest = stack@;
            let ghost top = parent.model();
            let mut parent = parent;
            parent.children.push(tag);
            proof {
                assert(parent.model().children =~= top.children.push(tag.model()));
                assert(parent.model() =~= (XmlNode { children: top.children.push(tag.model()), ..top }));
            }
            stack.push(parent);
            proof {
                assert(before[before.len() - 1] == top);
                assert(models_of(stack@) =~= add_child(before, tag.model()));
            }
        },
        None => {
            proof {
                assert(models_of(stack@) =~= before);
            }
        },
    }
}

/// Adds `chars[from..to]` to the contents of the innermost open element, if
/// there is one.
fn add_contents(stack: &mut Vec<XMLTag>, chars: &[char], from: usize, to: usize)
    requires
        from <= to <= chars.len(),
    ensures
        models_of(final(stack)@) == add_text(models_of(old(stack)@), chars@.subrange(from as int, to as int)),
{
    let ghost before = models_of(stack@);
    match stack.pop() {
        Some(parent) => {
            let ghost top = parent.model();
            let mut parent = parent;
            let text = text_of(chars, from, to);
            parent.contents.append(text.as_str());
            proof {
                assert(parent.model().children =~= top.children);
                assert(parent.model() =~= (XmlNode { contents: top.contents + text@, ..top }));
            }
            stack.push(parent);
            proof {
                assert(before[before.len() - 1] == top);
                assert(models_of(stack@) =~= add_text(before, text@));
            }
        },
        None => {
            proof {
                assert(models_of(stack@) =~= before);
            }
        },
    }
}

impl XMLTag {
    /// Reads the root element of an XML document, with everything inside
    /// it, from `xml_header`. What stands before the first `<` and after the
    /// tag that closes the root is ignored; the names in closing tags are
    /// not compared with those in opening tags.
    ///
    /// The result is `DataDepleted` when the text ends before the root is
    /// closed, and `StackDepleted` when a closing tag comes first.
    pub fn from_str(xml_header: &str) -> (r: Result<XMLTag, XmlError>)
        ensures
            match r {
                Ok(tag) => parse(xml_header@) == Ok::<XmlNode, XmlError>(tag.model()),
                Err(e) => parse(xml_header@) == Err::<XmlNode, XmlError>(e),
            },
    {
        let chars = chars_of(xml_header);
        let s = chars.as_slice();
        let n = s.len();
        let mut pos = find_char(s, 0, '<');
        let mut stack: Vec<XMLTag> = Vec::new();
        proof {
            assert(models_of(stack@) =~= Seq::empty());
        }
        while n - pos > 1
            invariant
                n == s.len(),
                s@ == xml_header@,
                pos <= n,
                parse(s@) == parse_from(s@, pos as int, models_of(stack@)),
            decreases n - pos,
        {
            let ch = s[pos];
            let next_ch = s[pos + 1];
            if ch == '<' && (('a' <= next_ch && next_ch <= 'z') || ('A' <= next_ch && next_ch <= 'Z')) {
                let end = find_char(s, pos + 1, '>');
                let raw = copy_range(s, pos + 1, end);
                proof {
                    lemma_find_from(s@, pos + 1, '>');
                    assert(raw@.len() > 0);
                }
                let (name, parameters) = read_tag(raw.as_slice());
                let single = raw[raw.len() - 1] == '/';
                let tag = XMLTag { name, parameters, contents: String::new(), children: Vec::new() };
                proof {
                    assert(tag.model().children =~= Seq::empty());
                    assert(tag.model() =~= opened(raw@));
                }
                if single {
                    attach(&mut stack, tag);
                } else {
                    let ghost before = models_of(stack@);
                    stack.push(tag);
                    proof {
                        assert(models_of(stack@) =~= before.push(opened(raw@)));
                    }
                }
                pos = if end < n { end + 1 } else { end };
            } else if ch == '<' && next_ch == '/' {
                let end = find_char(s, pos + 1, '>');
                proof {
                    lemma_find_from(s@, pos + 1, '>');
                }
                let ghost before = models_of(stack@);
                match stack.pop() {
                    Some(tag) => {
                        if stack.len() == 0 {
                            proof {
                                assert(before[0] == tag.model());
                            }
                            return Ok(tag);
                        }
                        proof {
                            assert(models_of(stack@) =~= before.drop_last());
                            assert(before[before.len() - 1] == tag.model());
                        }
                        attach(&mut stack, tag);
                    },
                    None => {
                        return Err(XmlError::StackDepleted);
                    },
                }
                pos = if end < n { end + 1 } else { end };
            } else {
                let end = find_char(s, pos + 1, '<');
                proof {
                    lemma_find_from(s@, pos + 1, '<');
                }
                add_contents(&mut stack, s, pos, end);
                pos = end;
            }
        }
        Err(XmlError::DataDepleted)
    }
}

/// An index of elements by path, as mathematical values.
pub open spec fn index_entries(v: Seq<(String, &XMLTag)>) -> Seq<(Seq<char>, XmlNode)> {
    Seq::new(v.len(), |i: int| (v[i].0@, v[i].1.model()))
}

/// The path of an element named `name` below the path `base`.
pub open spec fn path_of(base: Seq<char>, name: Seq<char>) -> Seq<char> {
    base + seq!['/'] + name
}

/// The index `acc` after the first `k` of `children`, which stand below the
/// path `base`, were entered with all that is inside them. The last child is
/// entered first; each element is entered under its path, and after it what
/// is inside it. An element entered later takes the place of one with the
/// same path.
pub open spec fn entered(children: Seq<XmlNode>, k: int, base: Seq<char>, acc: Seq<(Seq<char>, XmlNode)>) -> Seq<
    (Seq<char>, XmlNode),
>
    decreases children, k,
{
    if k <= 0 || k > children.len() {
        acc
    } else {
        let child = children[k - 1];
        let path = path_of(base, child.name);
        entered(
            children,
            k - 1,
            base,
            entered(child.children, child.children.len() as int, path, with_entry(acc, (path, child))),
        )
    }
}

/// The index of everything inside `root`, by path from the name of `root`.
pub open spec fn index_of(root: XmlNode) -> Seq<(Seq<char>, XmlNode)> {
    entered(root.children, root.children.len() as int, root.name, Seq::empty())
}

/// Stores `tag` under `path`, in place of an entry with the same path if
/// there is one.
fn put_index<'a>(index: &mut Vec<(String, &'a XMLTag)>, path: String, tag: &'a XMLTag)
    ensures
        index_entries(final(index)@) == with_entry(index_entries(old(index)@), (path@, tag.model())),
{
    let ghost before = index_entries(index@);
    let mut i: usize = 0;
    while i < index.len()
        invariant
            i <= index.len(),
            index@ == old(index)@,
            before == index_entries(index@),
            position_of(before, path@, 0) == position_of(before, path@, i as int),
        decreases index.len() - i,
    {
        if index[i].0 == path {
            proof {
                assert(before[i as int].0 == path@);
            }
            index.set(i, (path, tag));
            proof {
                assert(index_entries(index@) =~= before.update(i as int, (path@, tag.model())));
            }
            return ;
        }
        proof {
            assert(before[i as int].0 != path@);
        }
        i += 1;
    }
    index.push((path, tag));
    proof {
        assert(index_entries(index@) =~= before.push((path@, tag.model())));
    }
}

/// Enters the children of `tag`, which has the path `path`, with all that is
/// inside them.
fn enter_children<'a>(tag: &'a XMLTag, path: &String, index: &mut Vec<(String, &'a XMLTag)>)
    ensures
        index_entries(final(index)@) == entered(
            tag.model().children,
            tag.children.len() as int,
            path@,
            index_entries(old(index)@),
        ),
    decreases tag,
{
    broadcast use vstd::std_specs::vec::axiom_vec_index_decreases;

    let ghost children = tag.model().children;
    let ghost start = index_entries(index@);
    let mut k = tag.children.len();
    while k > 0
        invariant
            k <= tag.children.len(),
            children == tag.model().children,
            children.len() == tag.children.len(),
            entered(children, tag.children.len() as int, path@, start) == entered(
                children,
                k as int,
                path@,
                index_entries(index@),
            ),
        decreases k,
    {
        let child = &tag.children[k - 1];
        let mut key = path.clone();
        key.append("/");
        key.append(child.name.as_str());
        proof {
            reveal_strlit("/");
            assert("/"@ =~= seq!['/']);
            assert(key@ =~= path_of(path@, child.name@));
            assert(children[k - 1] == child.model());
            assert(child.model().children.len() == child.children.len());
        }
        put_index(index, key.clone(), child);
        enter_children(child, &key, index);
        k -= 1;
    }
}

impl XMLTag {
    /// An index of all elements inside this one by their path, which is made
    /// of the names from this element down, joined by `/`. Where several
    /// elements have the same path, the index holds the one that comes
    /// first in the document.
    pub fn build_index<'a>(&'a self) -> (index: Vec<(String, &'a XMLTag)>)
        ensures
            index_entries(index@) == index_of(self.model()),
    {
        let mut index: Vec<(String, &'a XMLTag)> = Vec::new();
        proof {
            assert(index_entries(index@) =~= Seq::empty());
        }
        enter_children(self, &self.name, &mut index);
        index
    }
}

/// The value stored under `key`, if there is one.
pub open spec fn value_of<V>(entries: Seq<(Seq<char>, V)>, key: Seq<char>) -> Option<V> {
    let i = position_of(entries, key, 0);
    if i < entries.len() {
        Some(entries[i].1)
    } else {
        None
    }
}

/// The element that `index` holds under `path`.
pub fn lookup<'a>(index: &Vec<(String, &'a XMLTag)>, path: &str) -> (r: Option<&'a XMLTag>)
    ensures
        match r {
            Some(tag) => value_of(index_entries(index@), path@) == Some(tag.model()),
            None => value_of(index_entries(index@), path@) == None::<XmlNode>,
        },
{
    let wanted = path.to_owned();
    let ghost entries = index_entries(index@);
    let mut i: usize = 0;
    while i < index.len()
        invariant
            i <= index.len(),
            entries == index_entries(index@),
            wanted@ == path@,
            position_of(entries, path@, 0) == position_of(entries, path@, i as int),
        decreases index.len() - i,
    {
        if index[i].0 == wanted {
            proof {
                assert(entries[i as int].0 == path@);
            }
            return Some(index[i].1);
        }
        proof {
            assert(entries[i as int].0 != path@);
        }
        i += 1;
    }
    None
}

impl XMLTag {
    /// The value of the attribute `key` of this element.
    pub fn parameter(&self, key: &str) -> (r: Option<&String>)
        ensures
            match r {
                Some(value) => value_of(self.model().parameters, key@) == Some(value@),
                None => value_of(self.model().parameters, key@) == None::<Seq<char>>,
            },
    {
        let wanted = key.to_owned();
        let ghost entries = entries_of(self.parameters@);
        let mut i: usize = 0;
        while i < self.parameters.len()
            invariant
                i <= self.parameters.len(),
                entries == entries_of(self.parameters@),
                wanted@ == key@,
                position_of(entries, key@, 0) == position_of(entries, key@, i as int),
            decreases self.parameters.len() - i,
        {
            if self.parameters[i].0 == wanted {
                proof {
                    assert(entries[i as int].0 == key@);
                }
                return Some(&self.parameters[i].1);
            }
            proof {
                assert(entries[i as int].0 != key@);
            }
            i += 1;
        }
        None
    }
}

} // verus!
