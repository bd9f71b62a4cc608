//! The manifest's textual format: a hand-written, verified parser and
//! composer for the XML dialect the manifest uses — a prolog, comments, a
//! `manifest` root, `default` and `project` elements with attributes, and
//! self-closing action children. The grammar spec functions here are the
//! single statement of the format; parsing and composing are proved against
//! them, and the round-trip law ties the two together.

use crate::application::ManifestError;
use crate::application::ManifestParser;
use crate::project::sp_file_action_of;
use crate::project::sp_has_delete;
use crate::project::sp_normalize_actions;
use crate::project::ActionModel;
use crate::project::Project;
use crate::project::ProjectModel;
use crate::text::sp_is_ws;
use vstd::prelude::*;

verus! {

/// Mathematical model of one parsed attribute.
pub struct AttrM {
    pub key: Seq<char>,
    pub value: Seq<char>,
}

/// Mathematical model of a self-closing child element (a project action).
pub struct ChildM {
    pub tag: Seq<char>,
    pub attrs: Seq<AttrM>,
}

/// Mathematical model of one element under the manifest root.
pub struct ElemM {
    pub tag: Seq<char>,
    pub attrs: Seq<AttrM>,
    pub children: Seq<ChildM>,
}

pub open spec fn sp_is_name_char(c: char) -> bool {
    ('a' <= c && c <= 'z') || ('A' <= c && c <= 'Z') || ('0' <= c && c <= '9') || c == '_' || c
        == '-' || c == '.' || c == ':'
}

/// The first position at or after `i` that is not whitespace.
pub open spec fn sp_skip_ws(t: Seq<char>, i: nat) -> nat
    decreases t.len() - i,
{
    if i < t.len() && sp_is_ws(t[i as int]) {
        sp_skip_ws(t, i + 1)
    } else {
        i
    }
}

/// The end of the name starting at `i`.
pub open spec fn sp_name_end(t: Seq<char>, i: nat) -> nat
    decreases t.len() - i,
{
    if i < t.len() && sp_is_name_char(t[i as int]) {
        sp_name_end(t, i + 1)
    } else {
        i
    }
}

/// The position of the closing double quote at or after `i`.
pub open spec fn sp_value_end(t: Seq<char>, i: nat) -> Option<nat>
    decreases t.len() - i,
{
    if i >= t.len() {
        None
    } else if t[i as int] == '"' {
        Some(i)
    } else {
        sp_value_end(t, i + 1)
    }
}

/// The position just after the `-->` that closes a comment opened before
/// `i`.
pub open spec fn sp_comment_end(t: Seq<char>, i: nat) -> Option<nat>
    decreases t.len() - i,
{
    if i + 3 > t.len() {
        None
    } else if t[i as int] == '-' && t[(i + 1) as int] == '-' && t[(i + 2) as int] == '>' {
        Some(i + 3)
    } else {
        sp_comment_end(t, i + 1)
    }
}

/// The position just after the `?>` that closes a processing instruction
/// opened before `i`.
pub open spec fn sp_pi_end(t: Seq<char>, i: nat) -> Option<nat>
    decreases t.len() - i,
{
    if i + 2 > t.len() {
        None
    } else if t[i as int] == '?' && t[(i + 1) as int] == '>' {
        Some(i + 2)
    } else {
        sp_pi_end(t, i + 1)
    }
}

/// Skip whitespace, comments and processing instructions. `None` when a
/// comment or instruction never closes.
pub open spec fn sp_skip_trivia(t: Seq<char>, i: nat) -> Option<nat>
    decreases t.len() - i,
{
    if i < t.len() && sp_is_ws(t[i as int]) {
        sp_skip_trivia(t, i + 1)
    } else if i + 4 <= t.len() && t[i as int] == '<' && t[(i + 1) as int] == '!' && t[(i + 2) as int] == '-' && t[(i + 3) as int] == '-' {
        match sp_comment_end(t, i + 4) {
            None => None,
            Some(j) => {
                if i < j <= t.len() {
                    sp_skip_trivia(t, j)
                } else {
                    None
                }
            },
        }
    } else if i + 2 <= t.len() && t[i as int] == '<' && t[(i + 1) as int] == '?' {
        match sp_pi_end(t, i + 2) {
            None => None,
            Some(j) => {
                if i < j <= t.len() {
                    sp_skip_trivia(t, j)
                } else {
                    None
                }
            },
        }
    } else {
        Some(i)
    }
}

/// One `key="value"` attribute at `i`: the key name, `=` with optional
/// whitespace around it, and a double-quoted value.
pub open spec fn sp_parse_attr(t: Seq<char>, i: nat) -> Option<(AttrM, nat)> {
    let ke = sp_name_end(t, i);
    if ke == i {
        None
    } else {
        let j = sp_skip_ws(t, ke);
        if j < t.len() && t[j as int] == '=' {
            let j2 = sp_skip_ws(t, j + 1);
            if j2 < t.len() && t[j2 as int] == '"' {
                match sp_value_end(t, j2 + 1) {
                    None => None,
                    Some(ve) => Some(
                        (
                            AttrM {
                                key: t.subrange(i as int, ke as int),
                                value: t.subrange((j2 + 1) as int, ve as int),
                            },
                            (ve + 1) as nat,
                        ),
                    ),
                }
            } else {
                None
            }
        } else {
            None
        }
    }
}

/// The attribute list of an element: attributes separated by whitespace,
/// ending right before `/` or `>`.
pub open spec fn sp_parse_attrs(t: Seq<char>, i: nat) -> Option<(Seq<AttrM>, nat)>
    decreases t.len() - i,
{
    let j = sp_skip_ws(t, i);
    if j >= t.len() {
        None
    } else if t[j as int] == '/' || t[j as int] == '>' {
        Some((Seq::empty(), j))
    } else {
        match sp_parse_attr(t, j) {
            None => None,
            Some((a, j2)) => {
                if i < j2 <= t.len() {
                    match sp_parse_attrs(t, j2) {
                        None => None,
                        Some((rest, j3)) => Some((seq![a] + rest, j3)),
                    }
                } else {
                    None
                }
            },
        }
    }
}

/// A self-closing child element: `<tag attrs/>`.
pub open spec fn sp_parse_child(t: Seq<char>, i: nat) -> Option<(ChildM, nat)> {
    if i < t.len() && t[i as int] == '<' {
        let te = sp_name_end(t, i + 1);
        if te == i + 1 {
            None
        } else {
            match sp_parse_attrs(t, te) {
                None => None,
                Some((attrs, j)) => {
                    if j + 2 <= t.len() && t[j as int] == '/' && t[(j + 1) as int] == '>' {
                        Some((ChildM { tag: t.subrange((i + 1) as int, te as int), attrs }, (j + 2) as nat))
                    } else {
                        None
                    }
                },
            }
        }
    } else {
        None
    }
}

/// The children of a `project` element, up to and including its closing
/// tag.
pub open spec fn sp_parse_children(t: Seq<char>, i: nat) -> Option<(Seq<ChildM>, nat)>
    decreases t.len() - i,
{
    match sp_skip_trivia(t, i) {
        None => None,
        Some(j) => {
            if !(i <= j <= t.len()) {
                None
            } else if j + 2 <= t.len() && t[j as int] == '<' && t[(j + 1) as int] == '/' {
                let te = sp_name_end(t, j + 2);
                let j2 = sp_skip_ws(t, te);
                if t.subrange((j + 2) as int, te as int) == "project"@ && j2 < t.len() && t[j2 as int]
                    == '>' {
                    Some((Seq::empty(), (j2 + 1) as nat))
                } else {
                    None
                }
            } else {
                match sp_parse_child(t, j) {
                    None => None,
                    Some((c, j2)) => {
                        if i < j2 <= t.len() {
                            match sp_parse_children(t, j2) {
                                None => None,
                                Some((rest, j3)) => Some((seq![c] + rest, j3)),
                            }
                        } else {
                            None
                        }
                    },
                }
            }
        },
    }
}

/// One element under the root: self-closing, or — for `project` only — an
/// open tag followed by self-closing children and a closing tag.
pub open spec fn sp_parse_elem(t: Seq<char>, i: nat) -> Option<(ElemM, nat)> {
    if i < t.len() && t[i as int] == '<' {
        let te = sp_name_end(t, i + 1);
        if te == i + 1 {
            None
        } else {
            let tag = t.subrange((i + 1) as int, te as int);
            match sp_parse_attrs(t, te) {
                None => None,
                Some((attrs, j)) => {
                    if j + 2 <= t.len() && t[j as int] == '/' && t[(j + 1) as int] == '>' {
                        Some((ElemM { tag, attrs, children: Seq::empty() }, (j + 2) as nat))
                    } else if j < t.len() && t[j as int] == '>' && tag == "project"@ {
                        match sp_parse_children(t, j + 1) {
                            None => None,
                            Some((cs, j2)) => Some((ElemM { tag, attrs, children: cs }, j2)),
                        }
                    } else {
                        None
                    }
                },
            }
        }
    } else {
        None
    }
}

/// The elements between `<manifest>` and `</manifest>`.
pub open spec fn sp_parse_content(t: Seq<char>, i: nat) -> Option<(Seq<ElemM>, nat)>
    decreases t.len() - i,
{
    match sp_skip_trivia(t, i) {
        None => None,
        Some(j) => {
            if !(i <= j <= t.len()) {
                None
            } else if j + 2 <= t.len() && t[j as int] == '<' && t[(j + 1) as int] == '/' {
                let te = sp_name_end(t, j + 2);
                let j2 = sp_skip_ws(t, te);
                if t.subrange((j + 2) as int, te as int) == "manifest"@ && j2 < t.len() && t[j2 as int]
                    == '>' {
                    Some((Seq::empty(), (j2 + 1) as nat))
                } else {
                    None
                }
            } else {
                match sp_parse_elem(t, j) {
                    None => None,
                    Some((e, j2)) => {
                        if i < j2 <= t.len() {
                            match sp_parse_content(t, j2) {
                                None => None,
                                Some((rest, j3)) => Some((seq![e] + rest, j3)),
                            }
                        } else {
                            None
                        }
                    },
                }
            }
        },
    }
}

/// A whole manifest document: trivia, the `manifest` root element, its
/// content, and trivia to the end of the text.
pub open spec fn sp_parse_doc(t: Seq<char>) -> Option<Seq<ElemM>> {
    match sp_skip_trivia(t, 0) {
        None => None,
        Some(i) => {
            if i < t.len() && t[i as int] == '<' {
                let te = sp_name_end(t, i + 1);
                if te == i + 1 || t.subrange((i + 1) as int, te as int) != "manifest"@ {
                    None
                } else {
                    match sp_parse_attrs(t, te) {
                        None => None,
                        Some((_attrs, j)) => {
                            if j < t.len() && t[j as int] == '>' {
                                match sp_parse_content(t, j + 1) {
                                    None => None,
                                    Some((elems, j2)) => {
                                        if j2 <= t.len() {
                                            match sp_skip_trivia(t, j2) {
                                                None => None,
                                                Some(j3) => {
                                                    if j3 == t.len() {
                                                        Some(elems)
                                                    } else {
                                                        None
                                                    }
                                                },
                                            }
                                        } else {
                                            None
                                        }
                                    },
                                }
                            } else {
                                None
                            }
                        },
                    }
                }
            } else {
                None
            }
        },
    }
}

// ---------------------------------------------------------------------
// bounds of the grammar functions

pub proof fn lemma_skip_ws_bounds(t: Seq<char>, i: nat)
    requires
        i <= t.len(),
    ensures
        i <= sp_skip_ws(t, i) <= t.len(),
        sp_skip_ws(t, i) < t.len() ==> !sp_is_ws(t[sp_skip_ws(t, i) as int]),
        forall|k: int| i <= k < sp_skip_ws(t, i) ==> sp_is_ws(#[trigger] t[k]),
    decreases t.len() - i,
{
    if i < t.len() && sp_is_ws(t[i as int]) {
        lemma_skip_ws_bounds(t, i + 1);
    }
}

// ---------------------------------------------------------------------
// executable scanners

fn skip_ws(s: &str, i: usize) -> (r: usize)
    requires
        i <= s@.len(),
    ensures
        r == sp_skip_ws(s@, i as nat),
        i <= r <= s@.len(),
{
    let len = s.unicode_len();
    let mut cur = i;
    while cur < len && crate::text::is_ws_char(s.get_char(cur))
        invariant
            i <= cur <= len,
            len == s@.len(),
            sp_skip_ws(s@, i as nat) == sp_skip_ws(s@, cur as nat),
        decreases len - cur,
    {
        cur += 1;
    }
    cur
}

fn is_name_char_at(s: &str, k: usize) -> (r: bool)
    requires
        k < s@.len(),
    ensures
        r == sp_is_name_char(s@[k as int]),
{
    let c = s.get_char(k);
    ('a' <= c && c <= 'z') || ('A' <= c && c <= 'Z') || ('0' <= c && c <= '9') || c == '_' || c
        == '-' || c == '.' || c == ':'
}

fn name_end(s: &str, i: usize) -> (r: usize)
    requires
        i <= s@.len(),
    ensures
        r == sp_name_end(s@, i as nat),
        i <= r <= s@.len(),
{
    let len = s.unicode_len();
    let mut cur = i;
    while cur < len && is_name_char_at(s, cur)
        invariant
            i <= cur <= len,
            len == s@.len(),
            sp_name_end(s@, i as nat) == sp_name_end(s@, cur as nat),
        decreases len - cur,
    {
        cur += 1;
    }
    cur
}

fn value_end(s: &str, i: usize) -> (r: Option<usize>)
    requires
        i <= s@.len(),
    ensures
        match r {
            Some(e) => sp_value_end(s@, i as nat) == Some(e as nat) && i <= e < s@.len(),
            None => sp_value_end(s@, i as nat) is None,
        },
{
    let len = s.unicode_len();
    let mut cur = i;
    while cur < len && s.get_char(cur) != '"'
        invariant
            i <= cur <= len,
            len == s@.len(),
            sp_value_end(s@, i as nat) == sp_value_end(s@, cur as nat),
        decreases len - cur,
    {
        cur += 1;
    }
    if cur < len {
        Some(cur)
    } else {
        None
    }
}

fn comment_close_at(s: &str, k: usize) -> (r: bool)
    requires
        k + 3 <= s@.len(),
        s@.len() <= usize::MAX,
    ensures
        r == (s@[k as int] == '-' && s@[k + 1] == '-' && s@[k + 2] == '>'),
{
    s.get_char(k) == '-' && s.get_char(k + 1) == '-' && s.get_char(k + 2) == '>'
}

fn comment_end(s: &str, i: usize) -> (r: Option<usize>)
    requires
        i <= s@.len(),
    ensures
        match r {
            Some(e) => sp_comment_end(s@, i as nat) == Some(e as nat) && i < e <= s@.len(),
            None => sp_comment_end(s@, i as nat) is None,
        },
{
    let len = s.unicode_len();
    let mut cur = i;
    while len - cur >= 3 && !comment_close_at(s, cur)
        invariant
            i <= cur <= len,
            len == s@.len(),
            sp_comment_end(s@, i as nat) == sp_comment_end(s@, cur as nat),
        decreases len - cur,
    {
        cur += 1;
    }
    if len - cur >= 3 {
        Some(cur + 3)
    } else {
        None
    }
}

fn pi_close_at(s: &str, k: usize) -> (r: bool)
    requires
        k + 2 <= s@.len(),
        s@.len() <= usize::MAX,
    ensures
        r == (s@[k as int] == '?' && s@[k + 1] == '>'),
{
    s.get_char(k) == '?' && s.get_char(k + 1) == '>'
}

fn pi_end(s: &str, i: usize) -> (r: Option<usize>)
    requires
        i <= s@.len(),
    ensures
        match r {
            Some(e) => sp_pi_end(s@, i as nat) == Some(e as nat) && i < e <= s@.len(),
            None => sp_pi_end(s@, i as nat) is None,
        },
{
    let len = s.unicode_len();
    let mut cur = i;
    while len - cur >= 2 && !pi_close_at(s, cur)
        invariant
            i <= cur <= len,
            len == s@.len(),
            sp_pi_end(s@, i as nat) == sp_pi_end(s@, cur as nat),
        decreases len - cur,
    {
        cur += 1;
    }
    if len - cur >= 2 {
        Some(cur + 2)
    } else {
        None
    }
}

/// Skipping whitespace never moves past the start of non-whitespace, so
/// trivia skipping is unaffected by first skipping whitespace.
proof fn lemma_trivia_over_ws(t: Seq<char>, i: nat)
    requires
        i <= t.len(),
    ensures
        sp_skip_trivia(t, i) == sp_skip_trivia(t, sp_skip_ws(t, i)),
    decreases t.len() - i,
{
    if i < t.len() && sp_is_ws(t[i as int]) {
        lemma_trivia_over_ws(t, i + 1);
    }
}

fn skip_trivia(s: &str, i: usize) -> (r: Option<usize>)
    requires
        i <= s@.len(),
    ensures
        match r {
            Some(e) => sp_skip_trivia(s@, i as nat) == Some(e as nat) && i <= e <= s@.len(),
            None => sp_skip_trivia(s@, i as nat) is None,
        },
{
    let len = s.unicode_len();
    let mut cur = i;
    loop
        invariant
            i <= cur <= len,
            len == s@.len(),
            sp_skip_trivia(s@, i as nat) == sp_skip_trivia(s@, cur as nat),
        decreases len - cur,
    {
        let w = skip_ws(s, cur);
        proof {
            lemma_trivia_over_ws(s@, cur as nat);
            lemma_skip_ws_bounds(s@, cur as nat);
        }
        if len - w >= 4 && s.get_char(w) == '<' && s.get_char(w + 1) == '!' && s.get_char(w + 2)
            == '-' && s.get_char(w + 3) == '-' {
            match comment_end(s, w + 4) {
                None => {
                    return None;
                },
                Some(j) => {
                    proof {
                        assert(sp_skip_trivia(s@, w as nat) == sp_skip_trivia(s@, j as nat));
                    }
                    cur = j;
                },
            }
        } else if len - w >= 2 && s.get_char(w) == '<' && s.get_char(w + 1) == '?' {
            match pi_end(s, w + 2) {
                None => {
                    return None;
                },
                Some(j) => {
                    proof {
                        assert(sp_skip_trivia(s@, w as nat) == sp_skip_trivia(s@, j as nat));
                    }
                    cur = j;
                },
            }
        } else {
            proof {
                assert(sp_skip_trivia(s@, w as nat) == Some(w as nat));
            }
            return Some(w);
        }
    }
}

// ---------------------------------------------------------------------
// executable structural parser

struct RawAttr {
    pub key: String,
    pub value: String,
}

impl View for RawAttr {
    type V = AttrM;

    closed spec fn view(&self) -> AttrM {
        AttrM { key: self.key@, value: self.value@ }
    }
}

impl DeepView for RawAttr {
    type V = AttrM;

    closed spec fn deep_view(&self) -> AttrM {
        self.view()
    }
}

struct RawChild {
    pub tag: String,
    pub attrs: Vec<RawAttr>,
}

impl View for RawChild {
    type V = ChildM;

    closed spec fn view(&self) -> ChildM {
        ChildM { tag: self.tag@, attrs: self.attrs.deep_view() }
    }
}

impl DeepView for RawChild {
    type V = ChildM;

    closed spec fn deep_view(&self) -> ChildM {
        self.view()
    }
}

struct RawElem {
    pub tag: String,
    pub attrs: Vec<RawAttr>,
    pub children: Vec<RawChild>,
}

impl View for RawElem {
    type V = ElemM;

    closed spec fn view(&self) -> ElemM {
        ElemM {
            tag: self.tag@,
            attrs: self.attrs.deep_view(),
            children: self.children.deep_view(),
        }
    }
}

impl DeepView for RawElem {
    type V = ElemM;

    closed spec fn deep_view(&self) -> ElemM {
        self.view()
    }
}

fn parse_attr(s: &str, i: usize) -> (r: Option<(RawAttr, usize)>)
    requires
        i <= s@.len(),
    ensures
        match r {
            Some((a, j)) => sp_parse_attr(s@, i as nat) == Some((a@, j as nat)) && i < j
                <= s@.len(),
            None => sp_parse_attr(s@, i as nat) is None,
        },
{
    let len = s.unicode_len();
    let ke = name_end(s, i);
    if ke == i {
        return None;
    }
    let j = skip_ws(s, ke);
    if !(j < len && s.get_char(j) == '=') {
        return None;
    }
    let j2 = skip_ws(s, j + 1);
    if !(j2 < len && s.get_char(j2) == '"') {
        return None;
    }
    match value_end(s, j2 + 1) {
        None => None,
        Some(ve) => {
            let key = s.substring_char(i, ke).to_owned();
            let value = s.substring_char(j2 + 1, ve).to_owned();
            let a = RawAttr { key, value };
            proof {
                assert(a@ == sp_parse_attr(s@, i as nat).unwrap().0);
            }
            Some((a, ve + 1))
        },
    }
}

/// `o` with `pre` prepended to a successful parse's attribute list.
spec fn sp_with_attr_prefix(pre: Seq<AttrM>, o: Option<(Seq<AttrM>, nat)>) -> Option<
    (Seq<AttrM>, nat),
> {
    match o {
        None => None,
        Some((rest, j)) => Some((pre + rest, j)),
    }
}

fn parse_attrs(s: &str, i: usize) -> (r: Option<(Vec<RawAttr>, usize)>)
    requires
        i <= s@.len(),
    ensures
        match r {
            Some((v, j)) => sp_parse_attrs(s@, i as nat) == Some((v.deep_view(), j as nat)) && i
                <= j <= s@.len(),
            None => sp_parse_attrs(s@, i as nat) is None,
        },
{
    let len = s.unicode_len();
    let mut acc: Vec<RawAttr> = Vec::new();
    let mut cur = i;
    proof {
        assert(acc.deep_view() =~= Seq::<AttrM>::empty());
        assert(sp_with_attr_prefix(acc.deep_view(), sp_parse_attrs(s@, i as nat))
            == sp_parse_attrs(s@, i as nat)) by {
            let o = sp_parse_attrs(s@, i as nat);
            if o is Some {
                assert(acc.deep_view() + o.unwrap().0 =~= o.unwrap().0);
            }
        }
    }
    loop
        invariant
            i <= cur <= len,
            len == s@.len(),
            sp_parse_attrs(s@, i as nat) == sp_with_attr_prefix(
                acc.deep_view(),
                sp_parse_attrs(s@, cur as nat),
            ),
        decreases len - cur,
    {
        let j = skip_ws(s, cur);
        if j >= len {
            return None;
        }
        let c = s.get_char(j);
        if c == '/' || c == '>' {
            proof {
                assert(sp_parse_attrs(s@, cur as nat) == Some((Seq::<AttrM>::empty(), j as nat)));
                assert(acc.deep_view() + Seq::<AttrM>::empty() =~= acc.deep_view());
            }
            return Some((acc, j));
        }
        match parse_attr(s, j) {
            None => {
                return None;
            },
            Some((a, j2)) => {
                let ghost predv = acc.deep_view();
                let ghost am = a@;
                proof {
                    broadcast use crate::text::lemma_deep_view_len, crate::text::lemma_deep_view_index;

                    let inner = sp_parse_attrs(s@, j2 as nat);
                    assert(sp_parse_attrs(s@, cur as nat) == sp_with_attr_prefix(seq![am], inner));
                    if inner is Some {
                        assert(predv + (seq![am] + inner.unwrap().0) =~= (predv.push(am))
                            + inner.unwrap().0);
                    }
                }
                acc.push(a);
                proof {
                    assert(acc.deep_view() =~= predv.push(am));
                }
                cur = j2;
            },
        }
    }
}

fn parse_child(s: &str, i: usize) -> (r: Option<(RawChild, usize)>)
    requires
        i <= s@.len(),
    ensures
        match r {
            Some((c, j)) => sp_parse_child(s@, i as nat) == Some((c@, j as nat)) && i < j
                <= s@.len(),
            None => sp_parse_child(s@, i as nat) is None,
        },
{
    let len = s.unicode_len();
    if !(i < len && s.get_char(i) == '<') {
        return None;
    }
    let te = name_end(s, i + 1);
    if te == i + 1 {
        return None;
    }
    match parse_attrs(s, te) {
        None => None,
        Some((attrs, j)) => {
            if len - j >= 2 && s.get_char(j) == '/' && s.get_char(j + 1) == '>' {
                let tag = s.substring_char(i + 1, te).to_owned();
                let c = RawChild { tag, attrs };
                proof {
                    assert(c@ == sp_parse_child(s@, i as nat).unwrap().0);
                }
                Some((c, j + 2))
            } else {
                None
            }
        },
    }
}

spec fn sp_with_child_prefix(pre: Seq<ChildM>, o: Option<(Seq<ChildM>, nat)>) -> Option<
    (Seq<ChildM>, nat),
> {
    match o {
        None => None,
        Some((rest, j)) => Some((pre + rest, j)),
    }
}

fn parse_children(s: &str, i: usize) -> (r: Option<(Vec<RawChild>, usize)>)
    requires
        i <= s@.len(),
    ensures
        match r {
            Some((v, j)) => sp_parse_children(s@, i as nat) == Some((v.deep_view(), j as nat))
                && i <= j <= s@.len(),
            None => sp_parse_children(s@, i as nat) is None,
        },
{
    let len = s.unicode_len();
    let mut acc: Vec<RawChild> = Vec::new();
    let mut cur = i;
    proof {
        assert(acc.deep_view() =~= Seq::<ChildM>::empty());
        assert(sp_with_child_prefix(acc.deep_view(), sp_parse_children(s@, i as nat))
            == sp_parse_children(s@, i as nat)) by {
            let o = sp_parse_children(s@, i as nat);
            if o is Some {
                assert(acc.deep_view() + o.unwrap().0 =~= o.unwrap().0);
            }
        }
    }
    loop
        invariant
            i <= cur <= len,
            len == s@.len(),
            sp_parse_children(s@, i as nat) == sp_with_child_prefix(
                acc.deep_view(),
                sp_parse_children(s@, cur as nat),
            ),
        decreases len - cur,
    {
        let j = match skip_trivia(s, cur) {
            None => {
                return None;
            },
            Some(j) => j,
        };
        if len - j >= 2 && s.get_char(j) == '<' && s.get_char(j + 1) == '/' {
            let te = name_end(s, j + 2);
            let j2 = skip_ws(s, te);
            let closing_ok = crate::text::str_eq(s.substring_char(j + 2, te), "project") && j2
                < len && s.get_char(j2) == '>';
            if closing_ok {
                proof {
                    assert(sp_parse_children(s@, cur as nat) == Some(
                        (Seq::<ChildM>::empty(), (j2 + 1) as nat),
                    ));
                    assert(acc.deep_view() + Seq::<ChildM>::empty() =~= acc.deep_view());
                }
                return Some((acc, j2 + 1));
            } else {
                return None;
            }
        }
        match parse_child(s, j) {
            None => {
                return None;
            },
            Some((c, j2)) => {
                let ghost predv = acc.deep_view();
                let ghost cm = c@;
                proof {
                    let inner = sp_parse_children(s@, j2 as nat);
                    assert(sp_parse_children(s@, cur as nat) == sp_with_child_prefix(
                        seq![cm],
                        inner,
                    ));
                    if inner is Some {
                        assert(predv + (seq![cm] + inner.unwrap().0) =~= (predv.push(cm))
                            + inner.unwrap().0);
                    }
                }
                acc.push(c);
                proof {
                    broadcast use crate::text::lemma_deep_view_len, crate::text::lemma_deep_view_index;

                    assert(acc.deep_view() =~= predv.push(cm));
                }
                cur = j2;
            },
        }
    }
}

fn parse_elem(s: &str, i: usize) -> (r: Option<(RawElem, usize)>)
    requires
        i <= s@.len(),
    ensures
        match r {
            Some((e, j)) => sp_parse_elem(s@, i as nat) == Some((e@, j as nat)) && i < j
                <= s@.len(),
            None => sp_parse_elem(s@, i as nat) is None,
        },
{
    let len = s.unicode_len();
    if !(i < len && s.get_char(i) == '<') {
        return None;
    }
    let te = name_end(s, i + 1);
    if te == i + 1 {
        return None;
    }
    let tag = s.substring_char(i + 1, te).to_owned();
    match parse_attrs(s, te) {
        None => None,
        Some((attrs, j)) => {
            if len - j >= 2 && s.get_char(j) == '/' && s.get_char(j + 1) == '>' {
                let e = RawElem { tag, attrs, children: Vec::new() };
                proof {
                    assert(e.children.deep_view() =~= Seq::<ChildM>::empty());
                    assert(e@ == sp_parse_elem(s@, i as nat).unwrap().0);
                }
                Some((e, j + 2))
            } else if j < len && s.get_char(j) == '>' && crate::text::str_eq(
                tag.as_str(),
                "project",
            ) {
                match parse_children(s, j + 1) {
                    None => None,
                    Some((children, j2)) => {
                        let e = RawElem { tag, attrs, children };
                        proof {
                            assert(e@ == sp_parse_elem(s@, i as nat).unwrap().0);
                        }
                        Some((e, j2))
                    },
                }
            } else {
                None
            }
        },
    }
}

spec fn sp_with_elem_prefix(pre: Seq<ElemM>, o: Option<(Seq<ElemM>, nat)>) -> Option<
    (Seq<ElemM>, nat),
> {
    match o {
        None => None,
        Some((rest, j)) => Some((pre + rest, j)),
    }
}

fn parse_content(s: &str, i: usize) -> (r: Option<(Vec<RawElem>, usize)>)
    requires
        i <= s@.len(),
    ensures
        match r {
            Some((v, j)) => sp_parse_content(s@, i as nat) == Some((v.deep_view(), j as nat))
                && i <= j <= s@.len(),
            None => sp_parse_content(s@, i as nat) is None,
        },
{
    let len = s.unicode_len();
    let mut acc: Vec<RawElem> = Vec::new();
    let mut cur = i;
    proof {
        assert(acc.deep_view() =~= Seq::<ElemM>::empty());
        assert(sp_with_elem_prefix(acc.deep_view(), sp_parse_content(s@, i as nat))
            == sp_parse_content(s@, i as nat)) by {
            let o = sp_parse_content(s@, i as nat);
            if o is Some {
                assert(acc.deep_view() + o.unwrap().0 =~= o.unwrap().0);
            }
        }
    }
    loop
        invariant
            i <= cur <= len,
            len == s@.len(),
            sp_parse_content(s@, i as nat) == sp_with_elem_prefix(
                acc.deep_view(),
                sp_parse_content(s@, cur as nat),
            ),
        decreases len - cur,
    {
        let j = match skip_trivia(s, cur) {
            None => {
                return None;
            },
            Some(j) => j,
        };
        if len - j >= 2 && s.get_char(j) == '<' && s.get_char(j + 1) == '/' {
            let te = name_end(s, j + 2);
            let j2 = skip_ws(s, te);
            let closing_ok = crate::text::str_eq(s.substring_char(j + 2, te), "manifest") && j2
                < len && s.get_char(j2) == '>';
            if closing_ok {
                proof {
                    assert(sp_parse_content(s@, cur as nat) == Some(
                        (Seq::<ElemM>::empty(), (j2 + 1) as nat),
                    ));
                    assert(acc.deep_view() + Seq::<ElemM>::empty() =~= acc.deep_view());
                }
                return Some((acc, j2 + 1));
            } else {
                return None;
            }
        }
        match parse_elem(s, j) {
            None => {
                return None;
            },
            Some((e, j2)) => {
                let ghost predv = acc.deep_view();
                let ghost em = e@;
                proof {
                    let inner = sp_parse_content(s@, j2 as nat);
                    assert(sp_parse_content(s@, cur as nat) == sp_with_elem_prefix(
                        seq![em],
                        inner,
                    ));
                    if inner is Some {
                        assert(predv + (seq![em] + inner.unwrap().0) =~= (predv.push(em))
                            + inner.unwrap().0);
                    }
                }
                acc.push(e);
                proof {
                    broadcast use crate::text::lemma_deep_view_len, crate::text::lemma_deep_view_index;

                    assert(acc.deep_view() =~= predv.push(em));
                }
                cur = j2;
            },
        }
    }
}

fn parse_doc(s: &str) -> (r: Option<Vec<RawElem>>)
    ensures
        match r {
            Some(v) => sp_parse_doc(s@) == Some(v.deep_view()),
            None => sp_parse_doc(s@) is None,
        },
{
    let len = s.unicode_len();
    let i = match skip_trivia(s, 0) {
        None => {
            return None;
        },
        Some(i) => i,
    };
    if !(i < len && s.get_char(i) == '<') {
        return None;
    }
    let te = name_end(s, i + 1);
    if te == i + 1 {
        return None;
    }
    if !crate::text::str_eq(s.substring_char(i + 1, te), "manifest") {
        return None;
    }
    match parse_attrs(s, te) {
        None => None,
        Some((_attrs, j)) => {
            if !(j < len && s.get_char(j) == '>') {
                return None;
            }
            match parse_content(s, j + 1) {
                None => None,
                Some((elems, j2)) => {
                    match skip_trivia(s, j2) {
                        None => None,
                        Some(j3) => {
                            if j3 == len {
                                Some(elems)
                            } else {
                                None
                            }
                        },
                    }
                },
            }
        },
    }
}

// ---------------------------------------------------------------------
// interpretation: from raw elements to projects

/// Why a manifest text was rejected.
#[derive(Clone, Copy, PartialEq, Eq, Structural, Debug)]
pub enum ParseFailure {
    Syntax,
    MissingName,
    MissingPath,
    MissingSrcDest,
}

/// The message each rejection carries.
pub open spec fn sp_parse_error_text(f: ParseFailure) -> Seq<char> {
    match f {
        ParseFailure::Syntax => "Unable to parse XML"@,
        ParseFailure::MissingName => "<project --> name= <-- /> is missing"@,
        ParseFailure::MissingPath => "<project --> path= <-- /> is missing"@,
        ParseFailure::MissingSrcDest => "<[linkfile or copyfile] /> is missing src or dest"@,
    }
}

/// The first value of an attribute named `key`.
pub open spec fn sp_attr_lookup(attrs: Seq<AttrM>, key: Seq<char>) -> Option<Seq<char>>
    decreases attrs.len(),
{
    if attrs.len() == 0 {
        None
    } else if attrs[0].key == key {
        Some(attrs[0].value)
    } else {
        sp_attr_lookup(attrs.drop_first(), key)
    }
}

/// The attributes of the first `default` element, if any.
pub open spec fn sp_find_default(elems: Seq<ElemM>) -> Option<Seq<AttrM>>
    decreases elems.len(),
{
    if elems.len() == 0 {
        None
    } else if elems[0].tag == "default"@ {
        Some(elems[0].attrs)
    } else {
        sp_find_default(elems.drop_first())
    }
}

/// The manifest-scoped default revision: the `default` element's
/// `revision` attribute when present, else the fixed fallback.
pub open spec fn sp_default_revision(elems: Seq<ElemM>) -> Seq<char> {
    match sp_find_default(elems) {
        Some(attrs) => match sp_attr_lookup(attrs, "revision"@) {
            Some(v) => v,
            None => "main"@,
        },
        None => "main"@,
    }
}

/// The manifest-scoped default host, with its fixed fallback.
pub open spec fn sp_default_uri(elems: Seq<ElemM>) -> Seq<char> {
    match sp_find_default(elems) {
        Some(attrs) => match sp_attr_lookup(attrs, "uri"@) {
            Some(v) => v,
            None => "github.com"@,
        },
        None => "github.com"@,
    }
}

/// How one child element changes a project's action list: a file-action
/// tag needs `src` and `dest` and appends; `delete_project` appends once;
/// any other tag is ignored.
pub open spec fn sp_child_action(acc: Seq<ActionModel>, c: ChildM) -> Result<
    Seq<ActionModel>,
    ParseFailure,
> {
    if sp_file_action_of(c.tag, Seq::empty(), Seq::empty()) is Some {
        match (sp_attr_lookup(c.attrs, "src"@), sp_attr_lookup(c.attrs, "dest"@)) {
            (Some(sv), Some(dv)) => Ok(acc.push(sp_file_action_of(c.tag, sv, dv).unwrap())),
            _ => Err(ParseFailure::MissingSrcDest),
        }
    } else if c.tag == "delete_project"@ {
        if sp_has_delete(acc) {
            Ok(acc)
        } else {
            Ok(acc.push(ActionModel::DeleteProject))
        }
    } else {
        Ok(acc)
    }
}

pub open spec fn sp_actions_from(
    acc: Seq<ActionModel>,
    children: Seq<ChildM>,
    i: nat,
) -> Result<Seq<ActionModel>, ParseFailure>
    decreases children.len() - i,
{
    if i >= children.len() {
        Ok(acc)
    } else {
        match sp_child_action(acc, children[i as int]) {
            Ok(acc2) => sp_actions_from(acc2, children, i + 1),
            Err(e) => Err(e),
        }
    }
}

/// The project one `project` element stands for: `name` and `path` are
/// required, `revision` and `uri` fall back to the manifest defaults, and
/// the action list is normalized.
pub open spec fn sp_project_of(e: ElemM, def_rev: Seq<char>, def_uri: Seq<char>) -> Result<
    ProjectModel,
    ParseFailure,
> {
    match sp_attr_lookup(e.attrs, "name"@) {
        None => Err(ParseFailure::MissingName),
        Some(name) => match sp_attr_lookup(e.attrs, "path"@) {
            None => Err(ParseFailure::MissingPath),
            Some(path) => {
                let revision = match sp_attr_lookup(e.attrs, "revision"@) {
                    Some(v) => v,
                    None => def_rev,
                };
                let uri = match sp_attr_lookup(e.attrs, "uri"@) {
                    Some(v) => v,
                    None => def_uri,
                };
                match sp_actions_from(Seq::empty(), e.children, 0) {
                    Err(f) => Err(f),
                    Ok(actions) => Ok(
                        ProjectModel {
                            uri,
                            name,
                            revision,
                            path,
                            actions: sp_normalize_actions(actions),
                        },
                    ),
                }
            },
        },
    }
}

pub open spec fn sp_projects_from(
    elems: Seq<ElemM>,
    i: nat,
    def_rev: Seq<char>,
    def_uri: Seq<char>,
) -> Result<Seq<ProjectModel>, ParseFailure>
    decreases elems.len() - i,
{
    if i >= elems.len() {
        Ok(Seq::empty())
    } else if elems[i as int].tag == "project"@ {
        match sp_project_of(elems[i as int], def_rev, def_uri) {
            Err(f) => Err(f),
            Ok(p) => match sp_projects_from(elems, i + 1, def_rev, def_uri) {
                Err(f) => Err(f),
                Ok(rest) => Ok(seq![p] + rest),
            },
        }
    } else {
        sp_projects_from(elems, i + 1, def_rev, def_uri)
    }
}

/// What parsing a manifest text yields: its projects in document order, or
/// the first rejection.
pub open spec fn spec_parse_manifest(t: Seq<char>) -> Result<Seq<ProjectModel>, ParseFailure> {
    match sp_parse_doc(t) {
        None => Err(ParseFailure::Syntax),
        Some(elems) => sp_projects_from(
            elems,
            0,
            sp_default_revision(elems),
            sp_default_uri(elems),
        ),
    }
}

fn attr_lookup(attrs: &Vec<RawAttr>, key: &str) -> (r: Option<String>)
    ensures
        match r {
            Some(v) => sp_attr_lookup(attrs.deep_view(), key@) == Some(v@),
            None => sp_attr_lookup(attrs.deep_view(), key@) is None,
        },
{
    let ghost dv = attrs.deep_view();
    let mut i: usize = 0;
    proof {
        broadcast use crate::text::lemma_deep_view_len, crate::text::lemma_deep_view_index;

        assert(dv.subrange(0, dv.len() as int) =~= dv);
    }
    while i < attrs.len()
        invariant
            i <= attrs@.len(),
            dv == attrs.deep_view(),
            dv.len() == attrs@.len(),
            sp_attr_lookup(dv, key@) == sp_attr_lookup(dv.subrange(i as int, dv.len() as int), key@),
        decreases attrs@.len() - i,
    {
        proof {
            broadcast use crate::text::lemma_deep_view_len, crate::text::lemma_deep_view_index;

            let tail = dv.subrange(i as int, dv.len() as int);
            assert(tail[0] == dv[i as int]);
            assert(tail.drop_first() =~= dv.subrange(i + 1, dv.len() as int));
        }
        if crate::text::str_eq(attrs[i].key.as_str(), key) {
            return Some(attrs[i].value.clone());
        }
        i += 1;
    }
    proof {
        assert(dv.subrange(dv.len() as int, dv.len() as int) =~= Seq::<AttrM>::empty());
    }
    None
}

fn find_default<'a>(elems: &'a Vec<RawElem>) -> (r: Option<&'a Vec<RawAttr>>)
    ensures
        match r {
            Some(a) => sp_find_default(elems.deep_view()) == Some(a.deep_view()),
            None => sp_find_default(elems.deep_view()) is None,
        },
{
    let ghost dv = elems.deep_view();
    let mut i: usize = 0;
    proof {
        broadcast use crate::text::lemma_deep_view_len, crate::text::lemma_deep_view_index;

        assert(dv.subrange(0, dv.len() as int) =~= dv);
    }
    while i < elems.len()
        invariant
            i <= elems@.len(),
            dv == elems.deep_view(),
            dv.len() == elems@.len(),
            sp_find_default(dv) == sp_find_default(dv.subrange(i as int, dv.len() as int)),
        decreases elems@.len() - i,
    {
        proof {
            broadcast use crate::text::lemma_deep_view_len, crate::text::lemma_deep_view_index;

            let tail = dv.subrange(i as int, dv.len() as int);
            assert(tail[0] == dv[i as int]);
            assert(tail.drop_first() =~= dv.subrange(i + 1, dv.len() as int));
        }
        if crate::text::str_eq(elems[i].tag.as_str(), "default") {
            return Some(&elems[i].attrs);
        }
        i += 1;
    }
    proof {
        assert(dv.subrange(dv.len() as int, dv.len() as int) =~= Seq::<ElemM>::empty());
    }
    None
}

/// The manifest's resolved defaults: `(revision, uri)`.
fn defaults(elems: &Vec<RawElem>) -> (r: (String, String))
    ensures
        r.0@ == sp_default_revision(elems.deep_view()),
        r.1@ == sp_default_uri(elems.deep_view()),
{
    match find_default(elems) {
        None => ("main".to_owned(), "github.com".to_owned()),
        Some(attrs) => {
            let revision = match attr_lookup(attrs, "revision") {
                Some(v) => v,
                None => "main".to_owned(),
            };
            let uri = match attr_lookup(attrs, "uri") {
                Some(v) => v,
                None => "github.com".to_owned(),
            };
            (revision, uri)
        },
    }
}

fn project_of(e: &RawElem, def_rev: &String, def_uri: &String) -> (r: Result<
    Project,
    ParseFailure,
>)
    ensures
        match r {
            Ok(p) => sp_project_of(e@, def_rev@, def_uri@) == Ok::<ProjectModel, ParseFailure>(p@)
                && p.wf(),
            Err(f) => sp_project_of(e@, def_rev@, def_uri@) == Err::<ProjectModel, ParseFailure>(
                f,
            ),
        },
{
    let name = match attr_lookup(&e.attrs, "name") {
        Some(v) => v,
        None => {
            return Err(ParseFailure::MissingName);
        },
    };
    let path = match attr_lookup(&e.attrs, "path") {
        Some(v) => v,
        None => {
            return Err(ParseFailure::MissingPath);
        },
    };
    let revision = match attr_lookup(&e.attrs, "revision") {
        Some(v) => v,
        None => def_rev.clone(),
    };
    let uri = match attr_lookup(&e.attrs, "uri") {
        Some(v) => v,
        None => def_uri.clone(),
    };
    let mut p = Project::new(uri, name, revision, path);
    let ghost cdv = e.children.deep_view();
    let mut i: usize = 0;
    proof {
        broadcast use crate::text::lemma_deep_view_len, crate::text::lemma_deep_view_index;

    }
    while i < e.children.len()
        invariant
            i <= e.children@.len(),
            cdv == e.children.deep_view(),
            cdv.len() == e.children@.len(),
            p.wf(),
            sp_actions_from(Seq::empty(), cdv, 0) == sp_actions_from(p@.actions, cdv, i as nat),
            sp_attr_lookup(e@.attrs, "name"@) == Some(p@.name),
            sp_attr_lookup(e@.attrs, "path"@) == Some(p@.path),
            p@.revision == match sp_attr_lookup(e@.attrs, "revision"@) {
                Some(v) => v,
                None => def_rev@,
            },
            p@.uri == match sp_attr_lookup(e@.attrs, "uri"@) {
                Some(v) => v,
                None => def_uri@,
            },
        decreases e.children@.len() - i,
    {
        proof {
            broadcast use crate::text::lemma_deep_view_len, crate::text::lemma_deep_view_index;

        }
        let c = &e.children[i];
        let ghost cm = cdv[i as int];
        proof {
            assert(cm == c@);
        }
        if p.is_file_action(c.tag.as_str()) {
            let sv = attr_lookup(&c.attrs, "src");
            let dvv = attr_lookup(&c.attrs, "dest");
            match (sv, dvv) {
                (Some(srcv), Some(destv)) => {
                    p.add_file_action(c.tag.as_str(), srcv, destv);
                },
                _ => {
                    proof {
                        assert(sp_child_action(p@.actions, cdv[i as int]) == Err::<
                            Seq<ActionModel>,
                            ParseFailure,
                        >(ParseFailure::MissingSrcDest));
                        assert(sp_actions_from(p@.actions, cdv, i as nat) == Err::<
                            Seq<ActionModel>,
                            ParseFailure,
                        >(ParseFailure::MissingSrcDest));
                        assert(sp_actions_from(Seq::empty(), cdv, 0) == Err::<
                            Seq<ActionModel>,
                            ParseFailure,
                        >(ParseFailure::MissingSrcDest));
                        assert(cdv == e@.children);
                        assert(sp_attr_lookup(e@.attrs, "name"@) is Some);
                        assert(sp_attr_lookup(e@.attrs, "path"@) is Some);
                        assert(sp_project_of(e@, def_rev@, def_uri@) == Err::<
                            ProjectModel,
                            ParseFailure,
                        >(ParseFailure::MissingSrcDest));
                    }
                    return Err(ParseFailure::MissingSrcDest);
                },
            }
        } else if p.is_delete_project(c.tag.as_str()) {
            p.add_delete_project();
        }
        i += 1;
    }
    p.sort_actions();
    Ok(p)
}

spec fn sp_with_project_prefix(
    pre: Seq<ProjectModel>,
    o: Result<Seq<ProjectModel>, ParseFailure>,
) -> Result<Seq<ProjectModel>, ParseFailure> {
    match o {
        Err(f) => Err(f),
        Ok(rest) => Ok(pre + rest),
    }
}

fn projects_of(elems: &Vec<RawElem>, def_rev: &String, def_uri: &String) -> (r: Result<
    Vec<Project>,
    ParseFailure,
>)
    ensures
        match r {
            Ok(ps) => sp_projects_from(elems.deep_view(), 0, def_rev@, def_uri@) == Ok::<
                Seq<ProjectModel>,
                ParseFailure,
            >(ps.deep_view()) && (forall|k: int| 0 <= k < ps@.len() ==> #[trigger] ps@[k].wf()),
            Err(f) => sp_projects_from(elems.deep_view(), 0, def_rev@, def_uri@) == Err::<
                Seq<ProjectModel>,
                ParseFailure,
            >(f),
        },
{
    let ghost edv = elems.deep_view();
    let mut acc: Vec<Project> = Vec::new();
    let mut i: usize = 0;
    proof {
        broadcast use crate::text::lemma_deep_view_len, crate::text::lemma_deep_view_index;

        assert(acc.deep_view() =~= Seq::<ProjectModel>::empty());
        assert(sp_with_project_prefix(acc.deep_view(), sp_projects_from(edv, 0, def_rev@, def_uri@))
            == sp_projects_from(edv, 0, def_rev@, def_uri@)) by {
            let o = sp_projects_from(edv, 0, def_rev@, def_uri@);
            if o is Ok {
                assert(acc.deep_view() + o.unwrap() =~= o.unwrap());
            }
        }
    }
    while i < elems.len()
        invariant
            i <= elems@.len(),
            edv == elems.deep_view(),
            edv.len() == elems@.len(),
            sp_projects_from(edv, 0, def_rev@, def_uri@) == sp_with_project_prefix(
                acc.deep_view(),
                sp_projects_from(edv, i as nat, def_rev@, def_uri@),
            ),
            forall|k: int| 0 <= k < acc@.len() ==> #[trigger] acc@[k].wf(),
        decreases elems@.len() - i,
    {
        proof {
            broadcast use crate::text::lemma_deep_view_len, crate::text::lemma_deep_view_index;

        }
        let e = &elems[i];
        proof {
            assert(e@ == edv[i as int]);
        }
        if crate::text::str_eq(e.tag.as_str(), "project") {
            match project_of(e, def_rev, def_uri) {
                Err(f) => {
                    return Err(f);
                },
                Ok(p) => {
                    let ghost predv = acc.deep_view();
                    let ghost pm = p@;
                    proof {
                        let inner = sp_projects_from(edv, (i + 1) as nat, def_rev@, def_uri@);
                        assert(sp_projects_from(edv, i as nat, def_rev@, def_uri@)
                            == sp_with_project_prefix(seq![pm], inner));
                        if inner is Ok {
                            assert(predv + (seq![pm] + inner.unwrap()) =~= (predv.push(pm))
                                + inner.unwrap());
                        }
                    }
                    acc.push(p);
                    proof {
                        broadcast use
                            crate::text::lemma_deep_view_len,
                            crate::text::lemma_deep_view_index;

                        assert(acc.deep_view() =~= predv.push(pm));
                    }
                },
            }
        }
        i += 1;
    }
    proof {
        let tail = sp_projects_from(edv, elems@.len() as nat, def_rev@, def_uri@);
        assert(tail == Ok::<Seq<ProjectModel>, ParseFailure>(Seq::empty()));
        assert(acc.deep_view() + Seq::<ProjectModel>::empty() =~= acc.deep_view());
    }
    Ok(acc)
}

/// The message of a rejection.
fn failure_text(f: ParseFailure) -> (r: String)
    ensures
        r@ == sp_parse_error_text(f),
{
    match f {
        ParseFailure::Syntax => "Unable to parse XML".to_owned(),
        ParseFailure::MissingName => "<project --> name= <-- /> is missing".to_owned(),
        ParseFailure::MissingPath => "<project --> path= <-- /> is missing".to_owned(),
        ParseFailure::MissingSrcDest => "<[linkfile or copyfile] /> is missing src or dest"
            .to_owned(),
    }
}

// ---------------------------------------------------------------------
// composing

/// The models of a sequence of projects.
pub open spec fn sp_models_of(s: Seq<Project>) -> Seq<ProjectModel> {
    Seq::new(s.len(), |k: int| s[k]@)
}

pub open spec fn sp_compose_action(a: ActionModel) -> Seq<char> {
    match a {
        ActionModel::LinkFile(src, dest) => "        <linkfile src=\""@ + src + "\" dest=\""@
            + dest + "\"/>\n"@,
        ActionModel::CopyFile(src, dest) => "        <copyfile src=\""@ + src + "\" dest=\""@
            + dest + "\"/>\n"@,
        ActionModel::CopyDir(src, dest) => "        <copydir src=\""@ + src + "\" dest=\""@ + dest
            + "\"/>\n"@,
        ActionModel::DeleteProject => "        <delete_project/>\n"@,
    }
}

pub open spec fn sp_compose_actions(actions: Seq<ActionModel>, i: nat) -> Seq<char>
    decreases actions.len() - i,
{
    if i >= actions.len() {
        Seq::empty()
    } else {
        sp_compose_action(actions[i as int]) + sp_compose_actions(actions, i + 1)
    }
}

/// The canonical text of one project: a self-closing element when it has
/// no actions, else an element with one line per action.
pub open spec fn sp_compose_project(p: ProjectModel) -> Seq<char> {
    if p.actions.len() == 0 {
        "    <project uri=\""@ + p.uri + "\" name=\""@ + p.name + "\" path=\""@ + p.path
            + "\" revision=\""@ + p.revision + "\"/>\n"@
    } else {
        "    <project uri=\""@ + p.uri + "\" name=\""@ + p.name + "\" path=\""@ + p.path
            + "\" revision=\""@ + p.revision + "\">\n"@ + sp_compose_actions(p.actions, 0)
            + "    </project>\n"@
    }
}

pub open spec fn sp_compose_projects(ps: Seq<ProjectModel>, i: nat) -> Seq<char>
    decreases ps.len() - i,
{
    if i >= ps.len() {
        Seq::empty()
    } else {
        sp_compose_project(ps[i as int]) + sp_compose_projects(ps, i + 1)
    }
}

/// The canonical text of a whole manifest.
pub open spec fn spec_compose_manifest(ps: Seq<ProjectModel>) -> Seq<char> {
    "<?xml version=\"1.0\" encoding=\"UTF-8\"?>\n"@ + "<manifest>\n"@ + sp_compose_projects(ps, 0)
        + "</manifest>\n"@
}

/// The canonical text of one project.
pub fn project_to_xml(project: &Project) -> (r: String)
    ensures
        r@ == sp_compose_project(project@),
{
    let mut xml = String::new();
    xml.append("    <project uri=\"");
    xml.append(project.get_uri().as_str());
    xml.append("\" name=\"");
    xml.append(project.get_name().as_str());
    xml.append("\" path=\"");
    xml.append(project.get_path().as_str());
    xml.append("\" revision=\"");
    xml.append(project.get_revision().as_str());
    let actions = project.get_actions();
    if actions.len() == 0 {
        xml.append("\"/>\n");
        proof {
            broadcast use crate::text::lemma_deep_view_len;

            assert(xml@ =~= sp_compose_project(project@));
        }
        xml
    } else {
        xml.append("\">\n");
        let ghost adv = project@.actions;
        let ghost head = xml@;
        let mut i: usize = 0;
        proof {
            broadcast use crate::text::lemma_deep_view_len, crate::text::lemma_deep_view_index;

            assert(xml@ =~= head + sp_compose_actions(adv, adv.len() as nat).subrange(0, 0));
            assert(xml@ =~= head + Seq::<char>::empty());
        }
        while i < actions.len()
            invariant
                i <= actions@.len(),
                adv == actions.deep_view(),
                adv.len() == actions@.len(),
                xml@ + sp_compose_actions(adv, i as nat) =~= head + sp_compose_actions(adv, 0),
            decreases actions@.len() - i,
        {
            proof {
                broadcast use crate::text::lemma_deep_view_len, crate::text::lemma_deep_view_index;

            }
            let a = &actions[i];
            let ghost am = adv[i as int];
            proof {
                assert(am == a@);
            }
            match a {
                crate::project::ProjectAction::FileAction(
                    crate::project::ProjectFileAction::LinkFile(src, dest),
                ) => {
                    xml.append("        <linkfile src=\"");
                    xml.append(src.as_str());
                    xml.append("\" dest=\"");
                    xml.append(dest.as_str());
                    xml.append("\"/>\n");
                },
                crate::project::ProjectAction::FileAction(
                    crate::project::ProjectFileAction::CopyFile(src, dest),
                ) => {
                    xml.append("        <copyfile src=\"");
                    xml.append(src.as_str());
                    xml.append("\" dest=\"");
                    xml.append(dest.as_str());
                    xml.append("\"/>\n");
                },
                crate::project::ProjectAction::FileAction(
                    crate::project::ProjectFileAction::CopyDir(src, dest),
                ) => {
                    xml.append("        <copydir src=\"");
                    xml.append(src.as_str());
                    xml.append("\" dest=\"");
                    xml.append(dest.as_str());
                    xml.append("\"/>\n");
                },
                crate::project::ProjectAction::DeleteProject => {
                    xml.append("        <delete_project/>\n");
                },
            }
            proof {
                assert(xml@ + sp_compose_actions(adv, (i + 1) as nat) =~= head + sp_compose_actions(
                    adv,
                    0,
                ));
            }
            i += 1;
        }
        proof {
            assert(sp_compose_actions(adv, adv.len() as nat) =~= Seq::<char>::empty());
            assert(xml@ =~= head + sp_compose_actions(adv, 0));
        }
        xml.append("    </project>\n");
        proof {
            assert(xml@ =~= sp_compose_project(project@));
        }
        xml
    }
}

/// The manifest parser for the XML dialect.
pub struct XmlParser {}

impl XmlParser {
    pub fn new() -> (r: XmlParser) {
        XmlParser {  }
    }
}

impl Default for XmlParser {
    fn default() -> (r: Self) {
        Self::new()
    }
}

impl ManifestParser for XmlParser {
    fn parse(&self, file: &str) -> (r: Result<Vec<Project>, ManifestError>) {
        match parse_doc(file) {
            None => Err(
                ManifestError::FailedToParseManifest(failure_text(ParseFailure::Syntax)),
            ),
            Some(elems) => {
                let (def_rev, def_uri) = defaults(&elems);
                match projects_of(&elems, &def_rev, &def_uri) {
                    Ok(ps) => Ok(ps),
                    Err(f) => Err(ManifestError::FailedToParseManifest(failure_text(f))),
                }
            },
        }
    }

    fn compose(&self, projects: &[Project]) -> (r: Result<String, ManifestError>) {
        let ghost models = sp_models_of(projects@);
        let mut xml = String::new();
        xml.append("<?xml version=\"1.0\" encoding=\"UTF-8\"?>\n");
        xml.append("<manifest>\n");
        let ghost head = xml@;
        let mut i: usize = 0;
        proof {
            assert(xml@ =~= head + Seq::<char>::empty());
        }
        while i < projects.len()
            invariant
                i <= projects@.len(),
                models == sp_models_of(projects@),
                models.len() == projects@.len(),
                xml@ + sp_compose_projects(models, i as nat) =~= head + sp_compose_projects(
                    models,
                    0,
                ),
            decreases projects@.len() - i,
        {
            let p = &projects[i];
            proof {
                assert(p@ == models[i as int]);
            }
            let ptext = project_to_xml(p);
            xml.append(ptext.as_str());
            proof {
                assert(xml@ + sp_compose_projects(models, (i + 1) as nat) =~= head
                    + sp_compose_projects(models, 0));
            }
            i += 1;
        }
        proof {
            assert(sp_compose_projects(models, models.len() as nat) =~= Seq::<char>::empty());
            assert(xml@ =~= head + sp_compose_projects(models, 0));
        }
        xml.append("</manifest>\n");
        proof {
            assert(xml@ =~= spec_compose_manifest(models));
        }
        Ok(xml)
    }
}

/// Revision and host default propagation: a `project` element that names
/// neither a `revision` nor a `uri` resolves both from the defaults it is
/// interpreted under; and the manifest-scoped defaults are the `default`
/// element's attributes when they are present, else the fixed fallbacks.
pub proof fn lemma_default_propagation(
    e: ElemM,
    elems: Seq<ElemM>,
    def_rev: Seq<char>,
    def_uri: Seq<char>,
)
    requires
        sp_attr_lookup(e.attrs, "revision"@) is None,
        sp_attr_lookup(e.attrs, "uri"@) is None,
        sp_project_of(e, def_rev, def_uri) is Ok,
    ensures
        sp_project_of(e, def_rev, def_uri).unwrap().revision == def_rev,
        sp_project_of(e, def_rev, def_uri).unwrap().uri == def_uri,
        sp_find_default(elems) is None ==> sp_default_revision(elems) == "main"@
            && sp_default_uri(elems) == "github.com"@,
        sp_find_default(elems) matches Some(attrs) ==> sp_default_revision(elems) == match
            sp_attr_lookup(attrs, "revision"@) {
            Some(v) => v,
            None => "main"@,
        },
        sp_find_default(elems) matches Some(attrs) ==> sp_default_uri(elems) == match
            sp_attr_lookup(attrs, "uri"@) {
            Some(v) => v,
            None => "github.com"@,
        },
{
}

} // verus!
