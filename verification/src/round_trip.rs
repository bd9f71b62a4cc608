//! The round-trip law: parsing the canonical text of a project list gives
//! back exactly those projects. The lemmas here walk the grammar over the
//! composed document, segment by segment.

use crate::project::sp_file_action_of;
use crate::project::sp_has_delete;
use crate::project::sp_normalize_actions;
use crate::project::ActionModel;
use crate::project::ProjectModel;
use crate::text::matches_at;
use crate::text::sp_is_ws;
use crate::xml_parser::sp_is_name_char;
use crate::xml_parser::sp_skip_ws;
use crate::xml_parser::sp_name_end;
use crate::xml_parser::sp_value_end;
use crate::xml_parser::sp_pi_end;
use crate::xml_parser::sp_comment_end;
use crate::xml_parser::sp_skip_trivia;
use crate::xml_parser::sp_parse_attr;
use crate::xml_parser::sp_parse_attrs;
use crate::xml_parser::sp_parse_child;
use crate::xml_parser::sp_parse_children;
use crate::xml_parser::sp_parse_elem;
use crate::xml_parser::sp_parse_content;
use crate::xml_parser::sp_parse_doc;
use crate::xml_parser::sp_attr_lookup;
use crate::xml_parser::sp_find_default;
use crate::xml_parser::sp_default_revision;
use crate::xml_parser::sp_default_uri;
use crate::xml_parser::sp_child_action;
use crate::xml_parser::sp_actions_from;
use crate::xml_parser::sp_project_of;
use crate::xml_parser::sp_projects_from;
use crate::xml_parser::spec_parse_manifest;
use crate::xml_parser::sp_compose_action;
use crate::xml_parser::sp_compose_actions;
use crate::xml_parser::sp_compose_project;
use crate::xml_parser::sp_compose_projects;
use crate::xml_parser::spec_compose_manifest;
use crate::xml_parser::AttrM;
use crate::xml_parser::ChildM;
use crate::xml_parser::ElemM;
use crate::xml_parser::ParseFailure;
use vstd::prelude::*;

verus! {

/// Text that can stand inside a double-quoted attribute value.
pub open spec fn sp_canonical_text(v: Seq<char>) -> bool {
    forall|k: int| 0 <= k < v.len() ==> #[trigger] v[k] != '"'
}

/// An action whose attribute values, if any, can stand in attributes.
pub open spec fn sp_canonical_action(a: ActionModel) -> bool {
    match a {
        ActionModel::LinkFile(src, dest) => sp_canonical_text(src) && sp_canonical_text(dest),
        ActionModel::CopyFile(src, dest) => sp_canonical_text(src) && sp_canonical_text(dest),
        ActionModel::CopyDir(src, dest) => sp_canonical_text(src) && sp_canonical_text(dest),
        ActionModel::DeleteProject => true,
    }
}

/// A project whose canonical text parses back to itself: every field can
/// stand in an attribute, and the action list is in normal form — a
/// `DeleteProject` action, if there is one, stands alone at the end, which
/// is exactly the ordering invariant the library maintains.
pub open spec fn sp_canonical_project(p: ProjectModel) -> bool {
    &&& sp_canonical_text(p.uri)
    &&& sp_canonical_text(p.name)
    &&& sp_canonical_text(p.revision)
    &&& sp_canonical_text(p.path)
    &&& forall|k: int| 0 <= k < p.actions.len() ==> sp_canonical_action(#[trigger] p.actions[k])
    &&& forall|k: int| 0 <= k < p.actions.len() - 1 ==> !(#[trigger] p.actions[k] is DeleteProject)
}

/// One character of a matched window.
proof fn lemma_char_at(t: Seq<char>, i: int, w: Seq<char>, k: int)
    requires
        matches_at(t, i, w),
        0 <= k < w.len(),
    ensures
        t[i + k] == w[k],
{
}

/// A match of a concatenation splits into matches of its parts.
proof fn lemma_matches_split(t: Seq<char>, i: int, u: Seq<char>, v: Seq<char>)
    requires
        matches_at(t, i, u + v),
    ensures
        matches_at(t, i, u),
        matches_at(t, i + u.len(), v),
{
    assert forall|k: int| 0 <= k < u.len() implies t[i + k] == u[k] by {
        assert(t[i + k] == (u + v)[k]);
    }
    assert forall|k: int| 0 <= k < v.len() implies t[i + u.len() + k] == v[k] by {
        assert(t[i + (u.len() + k)] == (u + v)[u.len() + k]);
    }
}

/// A matched window is the subrange it covers.
proof fn lemma_matches_subrange(t: Seq<char>, i: int, w: Seq<char>)
    requires
        matches_at(t, i, w),
    ensures
        t.subrange(i, i + w.len()) =~= w,
{
}

/// Whitespace skipping runs to the end of a whitespace run.
proof fn lemma_skip_ws_run(t: Seq<char>, i: nat, j: nat)
    requires
        i <= j <= t.len(),
        forall|k: int| i <= k < j ==> sp_is_ws(#[trigger] t[k]),
        j == t.len() || !sp_is_ws(t[j as int]),
    ensures
        sp_skip_ws(t, i) == j,
    decreases t.len() - i,
{
    if i < t.len() && sp_is_ws(t[i as int]) {
        assert(i < j);
        lemma_skip_ws_run(t, i + 1, j);
    }
}

/// Name scanning runs to the end of a run of name characters.
proof fn lemma_name_end_run(t: Seq<char>, i: nat, j: nat)
    requires
        i <= j <= t.len(),
        forall|k: int| i <= k < j ==> sp_is_name_char(#[trigger] t[k]),
        j == t.len() || !sp_is_name_char(t[j as int]),
    ensures
        sp_name_end(t, i) == j,
    decreases t.len() - i,
{
    if i < t.len() && sp_is_name_char(t[i as int]) {
        assert(i < j);
        lemma_name_end_run(t, i + 1, j);
    }
}

/// Value scanning stops at the first double quote.
proof fn lemma_value_end_run(t: Seq<char>, i: nat, j: nat)
    requires
        i <= j < t.len(),
        forall|k: int| i <= k < j ==> #[trigger] t[k] != '"',
        t[j as int] == '"',
    ensures
        sp_value_end(t, i) == Some(j),
    decreases t.len() - i,
{
    if i < t.len() && t[i as int] != '"' {
        assert(i < j);
        lemma_value_end_run(t, i + 1, j);
    }
}

/// Trivia skipping crosses a whitespace run and stops at a character that
/// opens neither a comment nor a processing instruction.
proof fn lemma_trivia_run(t: Seq<char>, i: nat, j: nat)
    requires
        i <= j < t.len(),
        forall|k: int| i <= k < j ==> sp_is_ws(#[trigger] t[k]),
        !sp_is_ws(t[j as int]),
        t[j as int] == '<' ==> j + 1 < t.len() && t[(j + 1) as int] != '!' && t[(j + 1) as int] != '?',
    ensures
        sp_skip_trivia(t, i) == Some(j),
    decreases t.len() - i,
{
    if i < t.len() && sp_is_ws(t[i as int]) {
        assert(i < j);
        lemma_trivia_run(t, i + 1, j);
    }
}

proof fn lemma_name_chars_manifest()
    ensures
        forall|k: int|
            0 <= k < "manifest"@.len() ==> sp_is_name_char(#[trigger] "manifest"@[k]),
        "manifest"@.len() == 8,
{
    reveal_strlit("manifest");
    assert forall|k: int| 0 <= k < "manifest"@.len() implies sp_is_name_char(
        #[trigger] "manifest"@[k],
    ) by {
        if k == 0 {
        } else if k == 1 {
        } else if k == 2 {
        } else if k == 3 {
        } else if k == 4 {
        } else if k == 5 {
        } else if k == 6 {
        } else {
            assert(k == 7);
        }
    }
}

proof fn lemma_name_chars_project()
    ensures
        forall|k: int|
            0 <= k < "project"@.len() ==> sp_is_name_char(#[trigger] "project"@[k]),
        "project"@.len() == 7,
{
    reveal_strlit("project");
    assert forall|k: int| 0 <= k < "project"@.len() implies sp_is_name_char(
        #[trigger] "project"@[k],
    ) by {
        if k == 0 {
        } else if k == 1 {
        } else if k == 2 {
        } else if k == 3 {
        } else if k == 4 {
        } else if k == 5 {
        } else {
            assert(k == 6);
        }
    }
}

proof fn lemma_name_chars_uri()
    ensures
        forall|k: int|
            0 <= k < "uri"@.len() ==> sp_is_name_char(#[trigger] "uri"@[k]),
        "uri"@.len() == 3,
{
    reveal_strlit("uri");
    assert forall|k: int| 0 <= k < "uri"@.len() implies sp_is_name_char(
        #[trigger] "uri"@[k],
    ) by {
        if k == 0 {
        } else if k == 1 {
        } else {
            assert(k == 2);
        }
    }
}

proof fn lemma_name_chars_name()
    ensures
        forall|k: int|
            0 <= k < "name"@.len() ==> sp_is_name_char(#[trigger] "name"@[k]),
        "name"@.len() == 4,
{
    reveal_strlit("name");
    assert forall|k: int| 0 <= k < "name"@.len() implies sp_is_name_char(
        #[trigger] "name"@[k],
    ) by {
        if k == 0 {
        } else if k == 1 {
        } else if k == 2 {
        } else {
            assert(k == 3);
        }
    }
}

proof fn lemma_name_chars_path()
    ensures
        forall|k: int|
            0 <= k < "path"@.len() ==> sp_is_name_char(#[trigger] "path"@[k]),
        "path"@.len() == 4,
{
    reveal_strlit("path");
    assert forall|k: int| 0 <= k < "path"@.len() implies sp_is_name_char(
        #[trigger] "path"@[k],
    ) by {
        if k == 0 {
        } else if k == 1 {
        } else if k == 2 {
        } else {
            assert(k == 3);
        }
    }
}

proof fn lemma_name_chars_revision()
    ensures
        forall|k: int|
            0 <= k < "revision"@.len() ==> sp_is_name_char(#[trigger] "revision"@[k]),
        "revision"@.len() == 8,
{
    reveal_strlit("revision");
    assert forall|k: int| 0 <= k < "revision"@.len() implies sp_is_name_char(
        #[trigger] "revision"@[k],
    ) by {
        if k == 0 {
        } else if k == 1 {
        } else if k == 2 {
        } else if k == 3 {
        } else if k == 4 {
        } else if k == 5 {
        } else if k == 6 {
        } else {
            assert(k == 7);
        }
    }
}

proof fn lemma_name_chars_linkfile()
    ensures
        forall|k: int|
            0 <= k < "linkfile"@.len() ==> sp_is_name_char(#[trigger] "linkfile"@[k]),
        "linkfile"@.len() == 8,
{
    reveal_strlit("linkfile");
    assert forall|k: int| 0 <= k < "linkfile"@.len() implies sp_is_name_char(
        #[trigger] "linkfile"@[k],
    ) by {
        if k == 0 {
        } else if k == 1 {
        } else if k == 2 {
        } else if k == 3 {
        } else if k == 4 {
        } else if k == 5 {
        } else if k == 6 {
        } else {
            assert(k == 7);
        }
    }
}

proof fn lemma_name_chars_copyfile()
    ensures
        forall|k: int|
            0 <= k < "copyfile"@.len() ==> sp_is_name_char(#[trigger] "copyfile"@[k]),
        "copyfile"@.len() == 8,
{
    reveal_strlit("copyfile");
    assert forall|k: int| 0 <= k < "copyfile"@.len() implies sp_is_name_char(
        #[trigger] "copyfile"@[k],
    ) by {
        if k == 0 {
        } else if k == 1 {
        } else if k == 2 {
        } else if k == 3 {
        } else if k == 4 {
        } else if k == 5 {
        } else if k == 6 {
        } else {
            assert(k == 7);
        }
    }
}

proof fn lemma_name_chars_copydir()
    ensures
        forall|k: int|
            0 <= k < "copydir"@.len() ==> sp_is_name_char(#[trigger] "copydir"@[k]),
        "copydir"@.len() == 7,
{
    reveal_strlit("copydir");
    assert forall|k: int| 0 <= k < "copydir"@.len() implies sp_is_name_char(
        #[trigger] "copydir"@[k],
    ) by {
        if k == 0 {
        } else if k == 1 {
        } else if k == 2 {
        } else if k == 3 {
        } else if k == 4 {
        } else if k == 5 {
        } else {
            assert(k == 6);
        }
    }
}

proof fn lemma_name_chars_src()
    ensures
        forall|k: int|
            0 <= k < "src"@.len() ==> sp_is_name_char(#[trigger] "src"@[k]),
        "src"@.len() == 3,
{
    reveal_strlit("src");
    assert forall|k: int| 0 <= k < "src"@.len() implies sp_is_name_char(
        #[trigger] "src"@[k],
    ) by {
        if k == 0 {
        } else if k == 1 {
        } else {
            assert(k == 2);
        }
    }
}

proof fn lemma_name_chars_dest()
    ensures
        forall|k: int|
            0 <= k < "dest"@.len() ==> sp_is_name_char(#[trigger] "dest"@[k]),
        "dest"@.len() == 4,
{
    reveal_strlit("dest");
    assert forall|k: int| 0 <= k < "dest"@.len() implies sp_is_name_char(
        #[trigger] "dest"@[k],
    ) by {
        if k == 0 {
        } else if k == 1 {
        } else if k == 2 {
        } else {
            assert(k == 3);
        }
    }
}

proof fn lemma_name_chars_delete_project()
    ensures
        forall|k: int|
            0 <= k < "delete_project"@.len() ==> sp_is_name_char(#[trigger] "delete_project"@[k]),
        "delete_project"@.len() == 14,
{
    reveal_strlit("delete_project");
    assert forall|k: int| 0 <= k < "delete_project"@.len() implies sp_is_name_char(
        #[trigger] "delete_project"@[k],
    ) by {
        assert("delete_project"@.len() == 14);
    }
}

/// One `key="value"` attribute parses from its canonical spelling.
proof fn lemma_parse_attr_at(t: Seq<char>, i: int, key: Seq<char>, value: Seq<char>)
    requires
        0 <= i,
        key.len() > 0,
        forall|k: int| 0 <= k < key.len() ==> sp_is_name_char(#[trigger] key[k]),
        sp_canonical_text(value),
        matches_at(t, i, key),
        i + key.len() + 2 + value.len() < t.len(),
        t[i + key.len()] == '=',
        t[i + key.len() + 1] == '"',
        matches_at(t, i + key.len() + 2, value),
        t[i + key.len() + 2 + value.len()] == '"',
    ensures
        sp_parse_attr(t, i as nat) == Some(
            (AttrM { key, value }, (i + key.len() + value.len() + 3) as nat),
        ),
{
    let ke = i + key.len();
    assert forall|k: int| i <= k < ke implies sp_is_name_char(#[trigger] t[k]) by {
        lemma_char_at(t, i, key, k - i);
    }
    assert(!sp_is_name_char('='));
    lemma_name_end_run(t, i as nat, ke as nat);
    lemma_skip_ws_run(t, ke as nat, ke as nat);
    lemma_skip_ws_run(t, (ke + 1) as nat, (ke + 1) as nat);
    assert forall|k: int| ke + 2 <= k < ke + 2 + value.len() implies #[trigger] t[k] != '"' by {
        lemma_char_at(t, ke + 2, value, k - (ke + 2));
    }
    lemma_value_end_run(t, (ke + 2) as nat, (ke + 2 + value.len()) as nat);
    lemma_matches_subrange(t, i, key);
    lemma_matches_subrange(t, ke + 2, value);
}

/// The child element an action composes to.
pub open spec fn sp_child_of_action(a: ActionModel) -> ChildM {
    match a {
        ActionModel::LinkFile(src, dest) => ChildM {
            tag: "linkfile"@,
            attrs: seq![AttrM { key: "src"@, value: src }, AttrM { key: "dest"@, value: dest }],
        },
        ActionModel::CopyFile(src, dest) => ChildM {
            tag: "copyfile"@,
            attrs: seq![AttrM { key: "src"@, value: src }, AttrM { key: "dest"@, value: dest }],
        },
        ActionModel::CopyDir(src, dest) => ChildM {
            tag: "copydir"@,
            attrs: seq![AttrM { key: "src"@, value: src }, AttrM { key: "dest"@, value: dest }],
        },
        ActionModel::DeleteProject => ChildM { tag: "delete_project"@, attrs: Seq::empty() },
    }
}

pub open spec fn sp_children_of_actions(actions: Seq<ActionModel>) -> Seq<ChildM> {
    Seq::new(actions.len(), |k: int| sp_child_of_action(actions[k]))
}

/// The element a project composes to.
pub open spec fn sp_elem_of_project(p: ProjectModel) -> ElemM {
    ElemM {
        tag: "project"@,
        attrs: seq![
            AttrM { key: "uri"@, value: p.uri },
            AttrM { key: "name"@, value: p.name },
            AttrM { key: "path"@, value: p.path },
            AttrM { key: "revision"@, value: p.revision },
        ],
        children: sp_children_of_actions(p.actions),
    }
}

pub open spec fn sp_elems_of(ps: Seq<ProjectModel>) -> Seq<ElemM> {
    Seq::new(ps.len(), |k: int| sp_elem_of_project(ps[k]))
}

/// A two-attribute list (`src`, `dest`) followed by `/` parses to those
/// two attributes.
proof fn lemma_parse_two_attrs(t: Seq<char>, i: int, src: Seq<char>, dest: Seq<char>)
    requires
        0 <= i,
        sp_canonical_text(src),
        sp_canonical_text(dest),
        // layout: ` src="SRC" dest="DEST"` then a stop character
        t[i] == ' ',
        matches_at(t, i + 1, "src"@),
        t[i + 4] == '=',
        t[i + 5] == '"',
        matches_at(t, i + 6, src),
        t[i + 6 + src.len()] == '"',
        t[i + 7 + src.len()] == ' ',
        matches_at(t, i + 8 + src.len(), "dest"@),
        t[i + 12 + src.len()] == '=',
        t[i + 13 + src.len()] == '"',
        matches_at(t, i + 14 + src.len(), dest),
        t[i + 14 + src.len() + dest.len()] == '"',
        i + 15 + src.len() + dest.len() < t.len(),
        t[i + 15 + src.len() + dest.len()] == '/' || t[i + 15 + src.len() + dest.len()] == '>',
    ensures
        sp_parse_attrs(t, i as nat) == Some(
            (
                seq![AttrM { key: "src"@, value: src }, AttrM { key: "dest"@, value: dest }],
                (i + 15 + src.len() + dest.len()) as nat,
            ),
        ),
{
    lemma_name_chars_src();
    lemma_name_chars_dest();
    let s1 = i + 1;
    // src attr: key at s1 (3 chars), '=' at s1+3, '"' at s1+4, value at s1+5,
    // closing '"' at s1+5+src.len(), so the attribute ends at s1+src.len()+6
    lemma_parse_attr_at(t, s1, "src"@, src);
    let after1 = s1 + 3 + src.len() + 3;
    assert(t[after1] == ' ');
    let s2 = after1 + 1;
    lemma_parse_attr_at(t, s2, "dest"@, dest);
    let after2 = s2 + 4 + dest.len() + 3;
    assert(after2 == i + 15 + src.len() + dest.len());
    // stop: at after2 the character is '/' or '>'
    lemma_skip_ws_run(t, after2 as nat, after2 as nat);
    assert(sp_parse_attrs(t, after2 as nat) == Some((Seq::<AttrM>::empty(), after2 as nat)));
    // dest attr list: skip the single space, then the attribute
    assert(sp_is_name_char(t[s2])) by {
        lemma_char_at(t, s2, "dest"@, 0);
    }
    assert(!sp_is_ws(t[s2]) && t[s2] != '/' && t[s2] != '>');
    lemma_skip_ws_run(t, after1 as nat, s2 as nat);
    assert(sp_parse_attrs(t, after1 as nat) == Some(
        (seq![AttrM { key: "dest"@, value: dest }], after2 as nat),
    )) by {
        assert(seq![AttrM { key: "dest"@, value: dest }] + Seq::<AttrM>::empty() =~= seq![
            AttrM { key: "dest"@, value: dest },
        ]);
    }
    // src attr list: starts right at s1 after the leading space at i
    assert(sp_is_name_char(t[s1])) by {
        lemma_char_at(t, s1, "src"@, 0);
    }
    assert(!sp_is_ws(t[s1]) && t[s1] != '/' && t[s1] != '>');
    lemma_skip_ws_run(t, i as nat, s1 as nat);
    assert(sp_parse_attrs(t, i as nat) == Some(
        (
            seq![AttrM { key: "src"@, value: src }, AttrM { key: "dest"@, value: dest }],
            after2 as nat,
        ),
    )) by {
        assert(seq![AttrM { key: "src"@, value: src }] + seq![
            AttrM { key: "dest"@, value: dest },
        ] =~= seq![AttrM { key: "src"@, value: src }, AttrM { key: "dest"@, value: dest }]);
    }
}

/// A match of `w` at `i` gives a match of any subrange of `w`.
proof fn lemma_matches_within(t: Seq<char>, i: int, w: Seq<char>, a: int, b: int, sub: Seq<char>)
    requires
        matches_at(t, i, w),
        0 <= a <= b <= w.len(),
        w.subrange(a, b) == sub,
    ensures
        matches_at(t, i + a, sub),
{
    assert forall|k: int| 0 <= k < sub.len() implies t[i + a + k] == sub[k] by {
        lemma_char_at(t, i, w, a + k);
        assert(w.subrange(a, b)[k] == w[a + k]);
    }
}

/// An action line parses as one self-closing child element, ending right
/// before the line's newline.
#[verifier::rlimit(100)]
#[verifier::spinoff_prover]
proof fn lemma_parse_action_at(t: Seq<char>, i: int, a: ActionModel)
    requires
        sp_canonical_action(a),
        0 <= i,
        matches_at(t, i, sp_compose_action(a)),
        i + sp_compose_action(a).len() < t.len(),
    ensures
        sp_parse_child(t, (i + 8) as nat) == Some(
            (sp_child_of_action(a), (i + sp_compose_action(a).len() - 1) as nat),
        ),
        sp_compose_action(a).len() >= 26,
        forall|k: int| i <= k < i + 8 ==> sp_is_ws(#[trigger] t[k]),
        t[i + 8] == '<',
        t[i + 9] != '/' && t[i + 9] != '!' && t[i + 9] != '?' && !sp_is_ws(t[i + 9]),
        t[i + sp_compose_action(a).len() - 1] == '\n',
{
    match a {
        ActionModel::LinkFile(src, dest) => {
            let l1 = "        <linkfile src=\""@;
            let l2 = "\" dest=\""@;
            let l3 = "\"/>\n"@;
            reveal_strlit("        <linkfile src=\"");
            reveal_strlit("\" dest=\"");
            reveal_strlit("\"/>\n");
            reveal_strlit("linkfile");
            reveal_strlit("src");
            reveal_strlit("dest");
            assert(l1.len() == 23);
            assert(l2.len() == 8);
            assert(l3.len() == 4);
            lemma_matches_split(t, i, (((l1 + src) + l2) + dest), l3);
            lemma_matches_split(t, i, ((l1 + src) + l2), dest);
            lemma_matches_split(t, i, (l1 + src), l2);
            lemma_matches_split(t, i, l1, src);
            let ia = i + 17;
            let o_src = i + 23;
            let o_l2 = o_src + src.len();
            let o_dest = o_l2 + 8;
            let o_l3 = o_dest + dest.len();
            lemma_char_at(t, i, l1, 8);
            assert(t[i + 8] == '<');
            lemma_char_at(t, i, l1, 17);
            assert(t[ia] == ' ');
            assert(l1.subrange(9, 17) =~= "linkfile"@);
            lemma_matches_within(t, i, l1, 9, 17, "linkfile"@);
            lemma_name_chars_linkfile();
            assert forall|k: int| i + 9 <= k < ia implies sp_is_name_char(#[trigger] t[k]) by {
                lemma_char_at(t, i + 9, "linkfile"@, k - (i + 9));
            }
            assert(!sp_is_name_char(' '));
            lemma_name_end_run(t, (i + 9) as nat, ia as nat);
            lemma_matches_subrange(t, i + 9, "linkfile"@);
            // the two attributes
            assert(l1.subrange(18, 21) =~= "src"@);
            lemma_matches_within(t, i, l1, 18, 21, "src"@);
            lemma_char_at(t, i, l1, 21);
            lemma_char_at(t, i, l1, 22);
            assert(t[ia + 4] == '=' && t[ia + 5] == '"');
            lemma_char_at(t, o_l2, l2, 0);
            lemma_char_at(t, o_l2, l2, 1);
            assert(l2.subrange(2, 6) =~= "dest"@);
            lemma_matches_within(t, o_l2, l2, 2, 6, "dest"@);
            lemma_char_at(t, o_l2, l2, 6);
            lemma_char_at(t, o_l2, l2, 7);
            lemma_char_at(t, o_l3, l3, 0);
            lemma_char_at(t, o_l3, l3, 1);
            lemma_char_at(t, o_l3, l3, 2);
            assert(t[o_l3] == '"' && t[o_l3 + 1] == '/' && t[o_l3 + 2] == '>');
            lemma_parse_two_attrs(t, ia, src, dest);
            assert(sp_parse_child(t, (i + 8) as nat) == Some(
                (sp_child_of_action(a), (i + sp_compose_action(a).len() - 1) as nat),
            ));
            assert forall|k: int| i <= k < i + 8 implies sp_is_ws(#[trigger] t[k]) by {
                lemma_char_at(t, i, l1, k - i);
            }
            lemma_char_at(t, i, l1, 9);
            lemma_char_at(t, o_l3, l3, 3);
            assert(t[i + sp_compose_action(a).len() - 1] == '\n');
        },
        ActionModel::CopyFile(src, dest) => {
            let l1 = "        <copyfile src=\""@;
            let l2 = "\" dest=\""@;
            let l3 = "\"/>\n"@;
            reveal_strlit("        <copyfile src=\"");
            reveal_strlit("\" dest=\"");
            reveal_strlit("\"/>\n");
            reveal_strlit("copyfile");
            reveal_strlit("src");
            reveal_strlit("dest");
            assert(l1.len() == 23);
            assert(l2.len() == 8);
            assert(l3.len() == 4);
            lemma_matches_split(t, i, (((l1 + src) + l2) + dest), l3);
            lemma_matches_split(t, i, ((l1 + src) + l2), dest);
            lemma_matches_split(t, i, (l1 + src), l2);
            lemma_matches_split(t, i, l1, src);
            let ia = i + 17;
            let o_src = i + 23;
            let o_l2 = o_src + src.len();
            let o_dest = o_l2 + 8;
            let o_l3 = o_dest + dest.len();
            lemma_char_at(t, i, l1, 8);
            assert(t[i + 8] == '<');
            lemma_char_at(t, i, l1, 17);
            assert(t[ia] == ' ');
            assert(l1.subrange(9, 17) =~= "copyfile"@);
            lemma_matches_within(t, i, l1, 9, 17, "copyfile"@);
            lemma_name_chars_copyfile();
            assert forall|k: int| i + 9 <= k < ia implies sp_is_name_char(#[trigger] t[k]) by {
                lemma_char_at(t, i + 9, "copyfile"@, k - (i + 9));
            }
            assert(!sp_is_name_char(' '));
            lemma_name_end_run(t, (i + 9) as nat, ia as nat);
            lemma_matches_subrange(t, i + 9, "copyfile"@);
            // the two attributes
            assert(l1.subrange(18, 21) =~= "src"@);
            lemma_matches_within(t, i, l1, 18, 21, "src"@);
            lemma_char_at(t, i, l1, 21);
            lemma_char_at(t, i, l1, 22);
            assert(t[ia + 4] == '=' && t[ia + 5] == '"');
            lemma_char_at(t, o_l2, l2, 0);
            lemma_char_at(t, o_l2, l2, 1);
            assert(l2.subrange(2, 6) =~= "dest"@);
            lemma_matches_within(t, o_l2, l2, 2, 6, "dest"@);
            lemma_char_at(t, o_l2, l2, 6);
            lemma_char_at(t, o_l2, l2, 7);
            lemma_char_at(t, o_l3, l3, 0);
            lemma_char_at(t, o_l3, l3, 1);
            lemma_char_at(t, o_l3, l3, 2);
            assert(t[o_l3] == '"' && t[o_l3 + 1] == '/' && t[o_l3 + 2] == '>');
            lemma_parse_two_attrs(t, ia, src, dest);
            assert(sp_parse_child(t, (i + 8) as nat) == Some(
                (sp_child_of_action(a), (i + sp_compose_action(a).len() - 1) as nat),
            ));
            assert forall|k: int| i <= k < i + 8 implies sp_is_ws(#[trigger] t[k]) by {
                lemma_char_at(t, i, l1, k - i);
            }
            lemma_char_at(t, i, l1, 9);
            lemma_char_at(t, o_l3, l3, 3);
            assert(t[i + sp_compose_action(a).len() - 1] == '\n');
        },
        ActionModel::CopyDir(src, dest) => {
            let l1 = "        <copydir src=\""@;
            let l2 = "\" dest=\""@;
            let l3 = "\"/>\n"@;
            reveal_strlit("        <copydir src=\"");
            reveal_strlit("\" dest=\"");
            reveal_strlit("\"/>\n");
            reveal_strlit("copydir");
            reveal_strlit("src");
            reveal_strlit("dest");
            assert(l1.len() == 22);
            assert(l2.len() == 8);
            assert(l3.len() == 4);
            lemma_matches_split(t, i, (((l1 + src) + l2) + dest), l3);
            lemma_matches_split(t, i, ((l1 + src) + l2), dest);
            lemma_matches_split(t, i, (l1 + src), l2);
            lemma_matches_split(t, i, l1, src);
            let ia = i + 16;
            let o_src = i + 22;
            let o_l2 = o_src + src.len();
            let o_dest = o_l2 + 8;
            let o_l3 = o_dest + dest.len();
            lemma_char_at(t, i, l1, 8);
            assert(t[i + 8] == '<');
            lemma_char_at(t, i, l1, 16);
            assert(t[ia] == ' ');
            assert(l1.subrange(9, 16) =~= "copydir"@);
            lemma_matches_within(t, i, l1, 9, 16, "copydir"@);
            lemma_name_chars_copydir();
            assert forall|k: int| i + 9 <= k < ia implies sp_is_name_char(#[trigger] t[k]) by {
                lemma_char_at(t, i + 9, "copydir"@, k - (i + 9));
            }
            assert(!sp_is_name_char(' '));
            lemma_name_end_run(t, (i + 9) as nat, ia as nat);
            lemma_matches_subrange(t, i + 9, "copydir"@);
            // the two attributes
            assert(l1.subrange(17, 20) =~= "src"@);
            lemma_matches_within(t, i, l1, 17, 20, "src"@);
            lemma_char_at(t, i, l1, 20);
            lemma_char_at(t, i, l1, 21);
            assert(t[ia + 4] == '=' && t[ia + 5] == '"');
            lemma_char_at(t, o_l2, l2, 0);
            lemma_char_at(t, o_l2, l2, 1);
            assert(l2.subrange(2, 6) =~= "dest"@);
            lemma_matches_within(t, o_l2, l2, 2, 6, "dest"@);
            lemma_char_at(t, o_l2, l2, 6);
            lemma_char_at(t, o_l2, l2, 7);
            lemma_char_at(t, o_l3, l3, 0);
            lemma_char_at(t, o_l3, l3, 1);
            lemma_char_at(t, o_l3, l3, 2);
            assert(t[o_l3] == '"' && t[o_l3 + 1] == '/' && t[o_l3 + 2] == '>');
            lemma_parse_two_attrs(t, ia, src, dest);
            assert(sp_parse_child(t, (i + 8) as nat) == Some(
                (sp_child_of_action(a), (i + sp_compose_action(a).len() - 1) as nat),
            ));
            assert forall|k: int| i <= k < i + 8 implies sp_is_ws(#[trigger] t[k]) by {
                lemma_char_at(t, i, l1, k - i);
            }
            lemma_char_at(t, i, l1, 9);
            lemma_char_at(t, o_l3, l3, 3);
            assert(t[i + sp_compose_action(a).len() - 1] == '\n');
        },
        ActionModel::DeleteProject => {
            let lit = "        <delete_project/>\n"@;
            reveal_strlit("        <delete_project/>\n");
            reveal_strlit("delete_project");
            assert(lit.len() == 26);
            let te = i + 23;
            lemma_char_at(t, i, lit, 8);
            assert(t[i + 8] == '<');
            assert(lit.subrange(9, 23) =~= "delete_project"@);
            lemma_matches_within(t, i, lit, 9, 23, "delete_project"@);
            lemma_name_chars_delete_project();
            assert forall|k: int| i + 9 <= k < te implies sp_is_name_char(#[trigger] t[k]) by {
                lemma_char_at(t, i + 9, "delete_project"@, k - (i + 9));
            }
            lemma_char_at(t, i, lit, 23);
            lemma_char_at(t, i, lit, 24);
            lemma_char_at(t, i, lit, 25);
            assert(t[te] == '/' && t[te + 1] == '>' && t[te + 2] == '\n');
            assert(!sp_is_name_char('/'));
            lemma_name_end_run(t, (i + 9) as nat, te as nat);
            lemma_matches_subrange(t, i + 9, "delete_project"@);
            lemma_skip_ws_run(t, te as nat, te as nat);
            assert(sp_parse_attrs(t, te as nat) == Some((Seq::<AttrM>::empty(), te as nat)));
            assert(sp_parse_child(t, (i + 8) as nat) == Some(
                (sp_child_of_action(a), (i + sp_compose_action(a).len() - 1) as nat),
            ));
            assert forall|k: int| i <= k < i + 8 implies sp_is_ws(#[trigger] t[k]) by {
                lemma_char_at(t, i, lit, k - i);
            }
            lemma_char_at(t, i, lit, 9);
            assert(t[i + sp_compose_action(a).len() - 1] == '\n');
        },
    }
}

/// Adjacent matches join into a match of the concatenation.
proof fn lemma_matches_join(t: Seq<char>, i: int, u: Seq<char>, v: Seq<char>)
    requires
        matches_at(t, i, u),
        matches_at(t, i + u.len(), v),
    ensures
        matches_at(t, i, u + v),
{
    assert forall|k: int| 0 <= k < (u + v).len() implies t[i + k] == (u + v)[k] by {
        if k < u.len() {
        } else {
            assert(t[i + u.len() + (k - u.len())] == v[k - u.len()]);
        }
    }
}

/// The action lines of a project followed by its closing tag parse as the
/// corresponding child elements.
#[verifier::rlimit(100)]
proof fn lemma_parse_children_at(t: Seq<char>, pos: int, actions: Seq<ActionModel>, k: int)
    requires
        0 <= pos,
        0 <= k <= actions.len(),
        forall|q: int| 0 <= q < actions.len() ==> sp_canonical_action(#[trigger] actions[q]),
        pos < t.len(),
        t[pos] == '\n',
        matches_at(t, pos + 1, sp_compose_actions(actions, k as nat) + "    </project>"@),
        pos + 1 + sp_compose_actions(actions, k as nat).len() + 14 < t.len(),
    ensures
        sp_parse_children(t, pos as nat) == Some(
            (
                sp_children_of_actions(actions).skip(k),
                (pos + 1 + sp_compose_actions(actions, k as nat).len() + 14) as nat,
            ),
        ),
    decreases actions.len() - k,
{
    let close = "    </project>"@;
    reveal_strlit("    </project>");
    reveal_strlit("project");
    assert(close.len() == 14);
    if k == actions.len() {
        assert(sp_compose_actions(actions, k as nat) =~= Seq::<char>::empty());
        assert(Seq::<char>::empty() + close =~= close);
        assert(matches_at(t, pos + 1, close));
        assert forall|q: int| pos <= q < pos + 5 implies sp_is_ws(#[trigger] t[q]) by {
            if q > pos {
                lemma_char_at(t, pos + 1, close, q - (pos + 1));
            }
        }
        lemma_char_at(t, pos + 1, close, 4);
        lemma_char_at(t, pos + 1, close, 5);
        assert(t[pos + 5] == '<' && t[pos + 6] == '/');
        lemma_trivia_run(t, pos as nat, (pos + 5) as nat);
        assert(close.subrange(6, 13) =~= "project"@);
        lemma_matches_within(t, pos + 1, close, 6, 13, "project"@);
        lemma_name_chars_project();
        assert forall|q: int| pos + 7 <= q < pos + 14 implies sp_is_name_char(
            #[trigger] t[q],
        ) by {
            lemma_char_at(t, pos + 7, "project"@, q - (pos + 7));
        }
        lemma_char_at(t, pos + 1, close, 13);
        assert(t[pos + 14] == '>');
        assert(!sp_is_name_char('>'));
        lemma_name_end_run(t, (pos + 7) as nat, (pos + 14) as nat);
        lemma_matches_subrange(t, pos + 7, "project"@);
        lemma_skip_ws_run(t, (pos + 14) as nat, (pos + 14) as nat);
        assert(sp_children_of_actions(actions).skip(k) =~= Seq::<ChildM>::empty());
        assert(sp_parse_children(t, pos as nat) == Some(
            (sp_children_of_actions(actions).skip(k), (pos + 15) as nat),
        ));
    } else {
        let a = actions[k];
        let line = sp_compose_action(a);
        let rest = sp_compose_actions(actions, (k + 1) as nat);
        assert(sp_compose_actions(actions, k as nat) == line + rest);
        assert((line + rest) + close =~= line + (rest + close));
        lemma_matches_split(t, pos + 1, line, rest + close);
        lemma_parse_action_at(t, pos + 1, a);
        // trivia over the newline and the line's indent
        assert forall|q: int| pos <= q < pos + 9 implies sp_is_ws(#[trigger] t[q]) by {
            if q > pos {
                assert(sp_is_ws(t[(pos + 1) + (q - pos - 1)]));
            }
        }
        assert(t[pos + 9] == '<');
        assert(t[pos + 10] != '!' && t[pos + 10] != '?');
        lemma_trivia_run(t, pos as nat, (pos + 9) as nat);
        assert(t[pos + 10] != '/');
        let posn = pos + 1 + line.len() - 1;
        assert(t[posn] == '\n');
        lemma_parse_children_at(t, posn, actions, k + 1);
        assert(sp_parse_children(t, posn as nat) == Some(
            (
                sp_children_of_actions(actions).skip(k + 1),
                (posn + 1 + rest.len() + 14) as nat,
            ),
        ));
        assert(sp_parse_child(t, (pos + 9) as nat) == Some(
            (sp_child_of_action(a), posn as nat),
        ));
        assert(seq![sp_child_of_action(a)] + sp_children_of_actions(actions).skip(k + 1)
            =~= sp_children_of_actions(actions).skip(k));
        assert(sp_parse_children(t, pos as nat) == Some(
            (
                sp_children_of_actions(actions).skip(k),
                (pos + 1 + sp_compose_actions(actions, k as nat).len() + 14) as nat,
            ),
        ));
    }
}

/// The four canonical project attributes parse from their spelling,
/// stopping at the element terminator.
#[verifier::rlimit(100)]
proof fn lemma_parse_project_attrs(t: Seq<char>, i: int, p: ProjectModel)
    requires
        sp_canonical_project(p),
        0 <= i,
        matches_at(t, i, "    <project uri=\""@),
        matches_at(t, i + 18, p.uri),
        matches_at(t, i + 18 + p.uri.len(), "\" name=\""@),
        matches_at(t, i + 26 + p.uri.len(), p.name),
        matches_at(t, i + 26 + p.uri.len() + p.name.len(), "\" path=\""@),
        matches_at(t, i + 34 + p.uri.len() + p.name.len(), p.path),
        matches_at(t, i + 34 + p.uri.len() + p.name.len() + p.path.len(), "\" revision=\""@),
        matches_at(t, i + 46 + p.uri.len() + p.name.len() + p.path.len(), p.revision),
        ({
            let o_tail = i + 46 + p.uri.len() + p.name.len() + p.path.len() + p.revision.len();
            &&& o_tail + 1 < t.len()
            &&& t[o_tail] == '"'
            &&& (t[o_tail + 1] == '/' || t[o_tail + 1] == '>')
        }),
    ensures
        ({
            let o_tail = i + 46 + p.uri.len() + p.name.len() + p.path.len() + p.revision.len();
            sp_parse_attrs(t, (i + 12) as nat) == Some(
                (sp_elem_of_project(p).attrs, (o_tail + 1) as nat),
            )
        }),
{
    let p1 = "    <project uri=\""@;
    let p2 = "\" name=\""@;
    let p3 = "\" path=\""@;
    let p4 = "\" revision=\""@;
    reveal_strlit("    <project uri=\"");
    reveal_strlit("\" name=\"");
    reveal_strlit("\" path=\"");
    reveal_strlit("\" revision=\"");
    reveal_strlit("uri");
    reveal_strlit("name");
    reveal_strlit("path");
    reveal_strlit("revision");
    assert(p1.len() == 18 && p2.len() == 8 && p3.len() == 8 && p4.len() == 12);
    lemma_name_chars_uri();
    lemma_name_chars_name();
    lemma_name_chars_path();
    lemma_name_chars_revision();
    let o_u = i + 18;
    let o_p2 = o_u + p.uri.len();
    let o_n = o_p2 + 8;
    let o_p3 = o_n + p.name.len();
    let o_pa = o_p3 + 8;
    let o_p4 = o_pa + p.path.len();
    let o_r = o_p4 + 12;
    let o_tail = o_r + p.revision.len();
    // attribute 1: uri
    let s1 = i + 13;
    assert(p1.subrange(13, 16) =~= "uri"@);
    lemma_matches_within(t, i, p1, 13, 16, "uri"@);
    lemma_char_at(t, i, p1, 16);
    lemma_char_at(t, i, p1, 17);
    lemma_char_at(t, o_p2, p2, 0);
    lemma_parse_attr_at(t, s1, "uri"@, p.uri);
    let e1 = o_p2 + 1;
    // attribute 2: name
    lemma_char_at(t, o_p2, p2, 1);
    let s2 = o_p2 + 2;
    assert(p2.subrange(2, 6) =~= "name"@);
    lemma_matches_within(t, o_p2, p2, 2, 6, "name"@);
    lemma_char_at(t, o_p2, p2, 6);
    lemma_char_at(t, o_p2, p2, 7);
    lemma_char_at(t, o_p3, p3, 0);
    lemma_parse_attr_at(t, s2, "name"@, p.name);
    let e2 = o_p3 + 1;
    // attribute 3: path
    lemma_char_at(t, o_p3, p3, 1);
    let s3 = o_p3 + 2;
    assert(p3.subrange(2, 6) =~= "path"@);
    lemma_matches_within(t, o_p3, p3, 2, 6, "path"@);
    lemma_char_at(t, o_p3, p3, 6);
    lemma_char_at(t, o_p3, p3, 7);
    lemma_char_at(t, o_p4, p4, 0);
    lemma_parse_attr_at(t, s3, "path"@, p.path);
    let e3 = o_p4 + 1;
    // attribute 4: revision
    lemma_char_at(t, o_p4, p4, 1);
    let s4 = o_p4 + 2;
    assert(p4.subrange(2, 10) =~= "revision"@);
    lemma_matches_within(t, o_p4, p4, 2, 10, "revision"@);
    lemma_char_at(t, o_p4, p4, 10);
    lemma_char_at(t, o_p4, p4, 11);
    lemma_parse_attr_at(t, s4, "revision"@, p.revision);
    let e4 = o_tail + 1;
    // chain the list from the terminator back to the start
    lemma_skip_ws_run(t, e4 as nat, e4 as nat);
    assert(sp_parse_attrs(t, e4 as nat) == Some((Seq::<AttrM>::empty(), e4 as nat)));
    let a1 = AttrM { key: "uri"@, value: p.uri };
    let a2 = AttrM { key: "name"@, value: p.name };
    let a3 = AttrM { key: "path"@, value: p.path };
    let a4 = AttrM { key: "revision"@, value: p.revision };
    assert(sp_is_name_char(t[s4])) by {
        lemma_char_at(t, s4, "revision"@, 0);
    }
    assert(!sp_is_ws(t[s4]) && t[s4] != '/' && t[s4] != '>');
    lemma_skip_ws_run(t, e3 as nat, s4 as nat);
    assert(sp_parse_attrs(t, e3 as nat) == Some((seq![a4], e4 as nat))) by {
        assert(seq![a4] + Seq::<AttrM>::empty() =~= seq![a4]);
    }
    assert(sp_is_name_char(t[s3])) by {
        lemma_char_at(t, s3, "path"@, 0);
    }
    assert(!sp_is_ws(t[s3]) && t[s3] != '/' && t[s3] != '>');
    lemma_skip_ws_run(t, e2 as nat, s3 as nat);
    assert(sp_parse_attrs(t, e2 as nat) == Some((seq![a3, a4], e4 as nat))) by {
        assert(seq![a3] + seq![a4] =~= seq![a3, a4]);
    }
    assert(sp_is_name_char(t[s2])) by {
        lemma_char_at(t, s2, "name"@, 0);
    }
    assert(!sp_is_ws(t[s2]) && t[s2] != '/' && t[s2] != '>');
    lemma_skip_ws_run(t, e1 as nat, s2 as nat);
    assert(sp_parse_attrs(t, e1 as nat) == Some((seq![a2, a3, a4], e4 as nat))) by {
        assert(seq![a2] + seq![a3, a4] =~= seq![a2, a3, a4]);
    }
    lemma_char_at(t, i, p1, 12);
    assert(t[i + 12] == ' ');
    assert(sp_is_name_char(t[s1])) by {
        lemma_char_at(t, s1, "uri"@, 0);
    }
    assert(!sp_is_ws(t[s1]) && t[s1] != '/' && t[s1] != '>');
    lemma_skip_ws_run(t, (i + 12) as nat, s1 as nat);
    assert(sp_parse_attrs(t, (i + 12) as nat) == Some(
        (seq![a1, a2, a3, a4], e4 as nat),
    )) by {
        assert(seq![a1] + seq![a2, a3, a4] =~= seq![a1, a2, a3, a4]);
    }
    assert(seq![a1, a2, a3, a4] =~= sp_elem_of_project(p).attrs);
}

/// A project's canonical segment parses as one `project` element, ending
/// right before the segment's final newline.
#[verifier::rlimit(100)]
proof fn lemma_parse_project_at(t: Seq<char>, i: int, p: ProjectModel)
    requires
        sp_canonical_project(p),
        0 <= i,
        matches_at(t, i, sp_compose_project(p)),
        i + sp_compose_project(p).len() < t.len(),
    ensures
        sp_parse_elem(t, (i + 4) as nat) == Some(
            (sp_elem_of_project(p), (i + sp_compose_project(p).len() - 1) as nat),
        ),
        sp_compose_project(p).len() >= 50,
        forall|k: int| i <= k < i + 4 ==> sp_is_ws(#[trigger] t[k]),
        t[i + 4] == '<',
        t[i + 5] != '/' && t[i + 5] != '!' && t[i + 5] != '?' && !sp_is_ws(t[i + 5]),
        t[i + sp_compose_project(p).len() - 1] == '\n',
{
    let p1 = "    <project uri=\""@;
    let p2 = "\" name=\""@;
    let p3 = "\" path=\""@;
    let p4 = "\" revision=\""@;
    reveal_strlit("    <project uri=\"");
    reveal_strlit("\" name=\"");
    reveal_strlit("\" path=\"");
    reveal_strlit("\" revision=\"");
    reveal_strlit("project");
    assert(p1.len() == 18 && p2.len() == 8 && p3.len() == 8 && p4.len() == 12);
    let o_u = i + 18;
    let o_p2 = o_u + p.uri.len();
    let o_n = o_p2 + 8;
    let o_p3 = o_n + p.name.len();
    let o_pa = o_p3 + 8;
    let o_p4 = o_pa + p.path.len();
    let o_r = o_p4 + 12;
    let o_tail = o_r + p.revision.len();
    let head = ((((((p1 + p.uri) + p2) + p.name) + p3) + p.path) + p4) + p.revision;
    if p.actions.len() == 0 {
        let tail = "\"/>\n"@;
        reveal_strlit("\"/>\n");
        assert(tail.len() == 4);
        assert(sp_compose_project(p) == head + tail);
        lemma_matches_split(t, i, head, tail);
        lemma_matches_split(t, i, (((((p1 + p.uri) + p2) + p.name) + p3) + p.path) + p4,
            p.revision);
        lemma_matches_split(t, i, ((((p1 + p.uri) + p2) + p.name) + p3) + p.path, p4);
        lemma_matches_split(t, i, (((p1 + p.uri) + p2) + p.name) + p3, p.path);
        lemma_matches_split(t, i, ((p1 + p.uri) + p2) + p.name, p3);
        lemma_matches_split(t, i, (p1 + p.uri) + p2, p.name);
        lemma_matches_split(t, i, p1 + p.uri, p2);
        lemma_matches_split(t, i, p1, p.uri);
        lemma_char_at(t, o_tail, tail, 0);
        lemma_char_at(t, o_tail, tail, 1);
        lemma_char_at(t, o_tail, tail, 2);
        lemma_char_at(t, o_tail, tail, 3);
        lemma_parse_project_attrs(t, i, p);
        // the element's name
        lemma_char_at(t, i, p1, 4);
        lemma_char_at(t, i, p1, 12);
        assert(p1.subrange(5, 12) =~= "project"@);
        lemma_matches_within(t, i, p1, 5, 12, "project"@);
        lemma_name_chars_project();
        assert forall|q: int| i + 5 <= q < i + 12 implies sp_is_name_char(#[trigger] t[q]) by {
            lemma_char_at(t, i + 5, "project"@, q - (i + 5));
        }
        assert(!sp_is_name_char(' '));
        lemma_name_end_run(t, (i + 5) as nat, (i + 12) as nat);
        lemma_matches_subrange(t, i + 5, "project"@);
        assert(sp_children_of_actions(p.actions) =~= Seq::<ChildM>::empty());
        assert(sp_parse_elem(t, (i + 4) as nat) == Some(
            (sp_elem_of_project(p), (i + sp_compose_project(p).len() - 1) as nat),
        ));
        assert forall|k: int| i <= k < i + 4 implies sp_is_ws(#[trigger] t[k]) by {
            lemma_char_at(t, i, p1, k - i);
        }
        lemma_char_at(t, i, p1, 5);
    } else {
        let tb = "\">\n"@;
        let ca = sp_compose_actions(p.actions, 0);
        let close15 = "    </project>\n"@;
        let close14 = "    </project>"@;
        reveal_strlit("\">\n");
        reveal_strlit("    </project>\n");
        reveal_strlit("    </project>");
        reveal_strlit("\n");
        assert(tb.len() == 3 && close15.len() == 15 && close14.len() == 14);
        assert(sp_compose_project(p) == ((head + tb) + ca) + close15);
        lemma_matches_split(t, i, (head + tb) + ca, close15);
        lemma_matches_split(t, i, head + tb, ca);
        lemma_matches_split(t, i, head, tb);
        lemma_matches_split(t, i, (((((p1 + p.uri) + p2) + p.name) + p3) + p.path) + p4,
            p.revision);
        lemma_matches_split(t, i, ((((p1 + p.uri) + p2) + p.name) + p3) + p.path, p4);
        lemma_matches_split(t, i, (((p1 + p.uri) + p2) + p.name) + p3, p.path);
        lemma_matches_split(t, i, ((p1 + p.uri) + p2) + p.name, p3);
        lemma_matches_split(t, i, (p1 + p.uri) + p2, p.name);
        lemma_matches_split(t, i, p1 + p.uri, p2);
        lemma_matches_split(t, i, p1, p.uri);
        let o_ca = o_tail + 3;
        let o_close = o_ca + ca.len();
        lemma_char_at(t, o_tail, tb, 0);
        lemma_char_at(t, o_tail, tb, 1);
        lemma_char_at(t, o_tail, tb, 2);
        lemma_parse_project_attrs(t, i, p);
        // the element's name
        lemma_char_at(t, i, p1, 4);
        lemma_char_at(t, i, p1, 12);
        assert(p1.subrange(5, 12) =~= "project"@);
        lemma_matches_within(t, i, p1, 5, 12, "project"@);
        lemma_name_chars_project();
        assert forall|q: int| i + 5 <= q < i + 12 implies sp_is_name_char(#[trigger] t[q]) by {
            lemma_char_at(t, i + 5, "project"@, q - (i + 5));
        }
        assert(!sp_is_name_char(' '));
        lemma_name_end_run(t, (i + 5) as nat, (i + 12) as nat);
        lemma_matches_subrange(t, i + 5, "project"@);
        // the children
        assert(close15 =~= close14 + "\n"@);
        lemma_matches_split(t, o_close, close14, "\n"@);
        lemma_matches_join(t, o_ca, ca, close14);
        let pos = o_tail + 2;
        assert(t[pos] == '\n');
        lemma_parse_children_at(t, pos, p.actions, 0);
        assert(sp_children_of_actions(p.actions).skip(0) =~= sp_children_of_actions(p.actions));
        assert(sp_parse_children(t, pos as nat) == Some(
            (sp_children_of_actions(p.actions), (o_close + 14) as nat),
        ));
        assert(t[o_tail + 1] == '>' && t[o_tail + 1] != '/');
        assert(sp_parse_elem(t, (i + 4) as nat) == Some(
            (sp_elem_of_project(p), (i + sp_compose_project(p).len() - 1) as nat),
        ));
        assert forall|k: int| i <= k < i + 4 implies sp_is_ws(#[trigger] t[k]) by {
            lemma_char_at(t, i, p1, k - i);
        }
        lemma_char_at(t, i, p1, 5);
        lemma_char_at(t, o_close, close15, 14);
        assert(t[i + sp_compose_project(p).len() - 1] == '\n');
    }
}

/// The project segments followed by the manifest's closing tag parse as
/// the corresponding elements.
#[verifier::rlimit(100)]
proof fn lemma_parse_content_at(t: Seq<char>, pos: int, ps: Seq<ProjectModel>, k: int)
    requires
        0 <= pos,
        0 <= k <= ps.len(),
        forall|q: int| 0 <= q < ps.len() ==> sp_canonical_project(#[trigger] ps[q]),
        pos < t.len(),
        t[pos] == '\n',
        matches_at(t, pos + 1, sp_compose_projects(ps, k as nat) + "</manifest>"@),
        pos + 1 + sp_compose_projects(ps, k as nat).len() + 11 < t.len(),
    ensures
        sp_parse_content(t, pos as nat) == Some(
            (
                sp_elems_of(ps).skip(k),
                (pos + 1 + sp_compose_projects(ps, k as nat).len() + 11) as nat,
            ),
        ),
    decreases ps.len() - k,
{
    let close = "</manifest>"@;
    reveal_strlit("</manifest>");
    reveal_strlit("manifest");
    assert(close.len() == 11);
    if k == ps.len() {
        assert(sp_compose_projects(ps, k as nat) =~= Seq::<char>::empty());
        assert(Seq::<char>::empty() + close =~= close);
        assert(matches_at(t, pos + 1, close));
        lemma_char_at(t, pos + 1, close, 0);
        lemma_char_at(t, pos + 1, close, 1);
        assert(t[pos + 1] == '<' && t[pos + 2] == '/');
        lemma_trivia_run(t, pos as nat, (pos + 1) as nat);
        assert(close.subrange(2, 10) =~= "manifest"@);
        lemma_matches_within(t, pos + 1, close, 2, 10, "manifest"@);
        lemma_name_chars_manifest();
        assert forall|q: int| pos + 3 <= q < pos + 11 implies sp_is_name_char(
            #[trigger] t[q],
        ) by {
            lemma_char_at(t, pos + 3, "manifest"@, q - (pos + 3));
        }
        lemma_char_at(t, pos + 1, close, 10);
        assert(t[pos + 11] == '>');
        assert(!sp_is_name_char('>'));
        lemma_name_end_run(t, (pos + 3) as nat, (pos + 11) as nat);
        lemma_matches_subrange(t, pos + 3, "manifest"@);
        lemma_skip_ws_run(t, (pos + 11) as nat, (pos + 11) as nat);
        assert(sp_elems_of(ps).skip(k) =~= Seq::<ElemM>::empty());
        assert(sp_parse_content(t, pos as nat) == Some(
            (sp_elems_of(ps).skip(k), (pos + 12) as nat),
        ));
    } else {
        let p = ps[k];
        let seg = sp_compose_project(p);
        let rest = sp_compose_projects(ps, (k + 1) as nat);
        assert(sp_compose_projects(ps, k as nat) == seg + rest);
        assert((seg + rest) + close =~= seg + (rest + close));
        lemma_matches_split(t, pos + 1, seg, rest + close);
        lemma_parse_project_at(t, pos + 1, p);
        assert forall|q: int| pos <= q < pos + 5 implies sp_is_ws(#[trigger] t[q]) by {
            if q > pos {
                assert(sp_is_ws(t[(pos + 1) + (q - pos - 1)]));
            }
        }
        assert(t[pos + 5] == '<');
        assert(t[pos + 6] != '!' && t[pos + 6] != '?');
        lemma_trivia_run(t, pos as nat, (pos + 5) as nat);
        assert(t[pos + 6] != '/');
        let posn = pos + 1 + seg.len() - 1;
        assert(t[posn] == '\n');
        lemma_parse_content_at(t, posn, ps, k + 1);
        assert(sp_parse_elem(t, (pos + 5) as nat) == Some(
            (sp_elem_of_project(p), posn as nat),
        ));
        assert(seq![sp_elem_of_project(p)] + sp_elems_of(ps).skip(k + 1) =~= sp_elems_of(
            ps,
        ).skip(k));
        assert(sp_parse_content(t, pos as nat) == Some(
            (
                sp_elems_of(ps).skip(k),
                (pos + 1 + sp_compose_projects(ps, k as nat).len() + 11) as nat,
            ),
        ));
    }
}

/// In a text that begins with the canonical prolog, the processing
/// instruction ends right before the prolog's newline.
#[verifier::rlimit(100)]
#[verifier::spinoff_prover]
proof fn lemma_prolog_pi(t: Seq<char>)
    requires
        t.len() >= 39,
        forall|q: int| 0 <= q < 39 ==> #[trigger] t[q] == "<?xml version=\"1.0\" encoding=\"UTF-8\"?>\n"@[q],
    ensures
        sp_pi_end(t, 2) == Some(38nat),
{
    reveal_strlit("<?xml version=\"1.0\" encoding=\"UTF-8\"?>\n");
    assert("<?xml version=\"1.0\" encoding=\"UTF-8\"?>\n"@.len() == 39);
    reveal_with_fuel(sp_pi_end, 42);
    assert(sp_pi_end(t, 2) == Some(38nat));
}

/// The canonical text of a project list parses into the corresponding
/// elements.
#[verifier::rlimit(100)]
#[verifier::spinoff_prover]
proof fn lemma_parse_doc_canonical(ps: Seq<ProjectModel>)
    requires
        forall|q: int| 0 <= q < ps.len() ==> sp_canonical_project(#[trigger] ps[q]),
    ensures
        sp_parse_doc(spec_compose_manifest(ps)) == Some(sp_elems_of(ps)),
{
    let t = spec_compose_manifest(ps);
    let h = "<?xml version=\"1.0\" encoding=\"UTF-8\"?>\n"@;
    let b = "<manifest>\n"@;
    let cps = sp_compose_projects(ps, 0);
    let e = "</manifest>\n"@;
    reveal_strlit("<?xml version=\"1.0\" encoding=\"UTF-8\"?>\n");
    reveal_strlit("<manifest>\n");
    reveal_strlit("</manifest>\n");
    reveal_strlit("</manifest>");
    reveal_strlit("manifest");
    reveal_strlit("\n");
    assert(h.len() == 39 && b.len() == 11 && e.len() == 12);
    assert(t == ((h + b) + cps) + e);
    assert(matches_at(t, 0, t)) by {
        assert forall|q: int| 0 <= q < t.len() implies t[0 + q] == #[trigger] t[q] by {}
    }
    lemma_matches_split(t, 0, (h + b) + cps, e);
    lemma_matches_split(t, 0, h + b, cps);
    lemma_matches_split(t, 0, h, b);
    assert forall|q: int| 0 <= q < 39 implies t[q] == h[q] by {
        lemma_char_at(t, 0, h, q);
    }
    // the prolog is one processing instruction
    lemma_prolog_pi(t);
    lemma_char_at(t, 39, b, 0);
    lemma_char_at(t, 39, b, 1);
    assert(sp_skip_trivia(t, 39) == Some(39nat));
    assert(sp_skip_trivia(t, 38) == Some(39nat));
    assert(sp_skip_trivia(t, 0) == Some(39nat));
    // the root element's name
    assert(b.subrange(1, 9) =~= "manifest"@);
    lemma_matches_within(t, 39, b, 1, 9, "manifest"@);
    lemma_name_chars_manifest();
    assert forall|q: int| 40 <= q < 48 implies sp_is_name_char(#[trigger] t[q]) by {
        lemma_char_at(t, 40, "manifest"@, q - 40);
    }
    lemma_char_at(t, 39, b, 9);
    assert(t[48] == '>');
    assert(!sp_is_name_char('>'));
    lemma_name_end_run(t, 40, 48);
    lemma_matches_subrange(t, 40, "manifest"@);
    lemma_skip_ws_run(t, 48, 48);
    assert(sp_parse_attrs(t, 48) == Some((Seq::<AttrM>::empty(), 48nat)));
    // the content
    lemma_char_at(t, 39, b, 10);
    assert(t[49] == '\n');
    assert(e =~= "</manifest>"@ + "\n"@);
    let n = cps.len() as int;
    lemma_matches_split(t, 50 + n, "</manifest>"@, "\n"@);
    lemma_matches_join(t, 50, cps, "</manifest>"@);
    lemma_parse_content_at(t, 49, ps, 0);
    assert(sp_elems_of(ps).skip(0) =~= sp_elems_of(ps));
    let j2 = 61 + n;
    assert(sp_parse_content(t, 49) == Some((sp_elems_of(ps), j2 as nat)));
    // trailing trivia runs to the end of the text
    assert(t[j2] == '\n') by {
        assert(t[(50 + n) + 11] == e[11]);
    }
    assert(t.len() == 62 + n);
    assert(sp_skip_trivia(t, (j2 + 1) as nat) == Some((j2 + 1) as nat));
    assert(sp_skip_trivia(t, j2 as nat) == Some((j2 + 1) as nat));
    assert(sp_parse_doc(t) == Some(sp_elems_of(ps)));
}

/// The manifest attribute keys, tags and action keys are pairwise
/// distinct where the interpretation tells them apart.
proof fn lemma_key_distinct()
    ensures
        "uri"@ != "name"@,
        "uri"@ != "path"@,
        "uri"@ != "revision"@,
        "name"@ != "path"@,
        "name"@ != "revision"@,
        "path"@ != "revision"@,
        "src"@ != "dest"@,
        "project"@ != "default"@,
        "linkfile"@ != "copyfile"@,
        "linkfile"@ != "copydir"@,
        "copyfile"@ != "copydir"@,
        "linkfile"@ != "delete_project"@,
        "copyfile"@ != "delete_project"@,
        "copydir"@ != "delete_project"@,
{
    reveal_strlit("uri");
    reveal_strlit("name");
    reveal_strlit("path");
    reveal_strlit("revision");
    reveal_strlit("src");
    reveal_strlit("dest");
    reveal_strlit("project");
    reveal_strlit("default");
    reveal_strlit("linkfile");
    reveal_strlit("copyfile");
    reveal_strlit("copydir");
    reveal_strlit("delete_project");
    assert("uri"@.len() == 3 && "name"@.len() == 4 && "path"@.len() == 4 && "revision"@.len()
        == 8);
    assert("src"@.len() == 3 && "dest"@.len() == 4);
    assert("project"@.len() == 7 && "default"@.len() == 7);
    assert("linkfile"@.len() == 8 && "copyfile"@.len() == 8 && "copydir"@.len() == 7);
    assert("delete_project"@.len() == 14);
    assert("name"@[0] != "path"@[0]);
    assert("project"@[0] != "default"@[0]);
    assert("linkfile"@[0] != "copyfile"@[0]);
}

/// One composed child element interprets back to the action it came from.
/// A delete child needs the accumulator delete-free, since interpretation
/// drops duplicate deletes.
proof fn lemma_child_action_roundtrip(acc: Seq<ActionModel>, a: ActionModel)
    requires
        sp_canonical_action(a),
        a is DeleteProject ==> !crate::project::sp_has_delete(acc),
    ensures
        sp_child_action(acc, sp_child_of_action(a)) == Ok::<Seq<ActionModel>, ParseFailure>(
            acc.push(a),
        ),
{
    lemma_key_distinct();
    let c = sp_child_of_action(a);
    match a {
        ActionModel::LinkFile(src, dest) => {
            lemma_two_attr_lookup(c.attrs, src, dest);
        },
        ActionModel::CopyFile(src, dest) => {
            lemma_two_attr_lookup(c.attrs, src, dest);
        },
        ActionModel::CopyDir(src, dest) => {
            lemma_two_attr_lookup(c.attrs, src, dest);
        },
        ActionModel::DeleteProject => {
            assert(c.tag == "delete_project"@);
        },
    }
}

/// Looking up `src` and `dest` in a two-attribute list finds them.
proof fn lemma_two_attr_lookup(attrs: Seq<AttrM>, src: Seq<char>, dest: Seq<char>)
    requires
        attrs =~= seq![AttrM { key: "src"@, value: src }, AttrM { key: "dest"@, value: dest }],
    ensures
        sp_attr_lookup(attrs, "src"@) == Some(src),
        sp_attr_lookup(attrs, "dest"@) == Some(dest),
{
    lemma_key_distinct();
    let tail = attrs.drop_first();
    assert(tail =~= seq![AttrM { key: "dest"@, value: dest }]);
    assert(attrs[0].key == "src"@);
    assert(sp_attr_lookup(tail, "dest"@) == Some(dest));
    assert(sp_attr_lookup(attrs, "dest"@) == sp_attr_lookup(tail, "dest"@));
}

/// The composed children of an action list interpret back to that list,
/// provided the delete action, if any, stands last and the accumulator is
/// still delete-free while one remains to process.
proof fn lemma_actions_roundtrip(actions: Seq<ActionModel>, acc: Seq<ActionModel>, k: int)
    requires
        0 <= k <= actions.len(),
        forall|q: int| 0 <= q < actions.len() ==> sp_canonical_action(#[trigger] actions[q]),
        forall|q: int| 0 <= q < actions.len() - 1 ==> !(#[trigger] actions[q] is DeleteProject),
        crate::project::sp_has_delete(acc) ==> forall|q: int|
            k <= q < actions.len() ==> !(#[trigger] actions[q] is DeleteProject),
    ensures
        sp_actions_from(acc, sp_children_of_actions(actions), k as nat) == Ok::<
            Seq<ActionModel>,
            ParseFailure,
        >(acc + actions.skip(k)),
    decreases actions.len() - k,
{
    if k == actions.len() {
        assert(acc + actions.skip(k) =~= acc);
    } else {
        if actions[k] is DeleteProject {
            assert(!crate::project::sp_has_delete(acc));
        }
        lemma_child_action_roundtrip(acc, actions[k]);
        let acc2 = acc.push(actions[k]);
        assert(crate::project::sp_has_delete(acc2) ==> forall|q: int|
            k + 1 <= q < actions.len() ==> !(#[trigger] actions[q] is DeleteProject)) by {
            if crate::project::sp_has_delete(acc2) {
                if actions[k] is DeleteProject {
                    assert(k == actions.len() - 1);
                } else {
                    assert(crate::project::sp_has_delete(acc)) by {
                        let w = choose|w: int|
                            0 <= w < acc2.len() && acc2[w] is DeleteProject;
                        assert(w < acc.len() && acc[w] is DeleteProject);
                    }
                }
            }
        }
        lemma_actions_roundtrip(actions, acc2, k + 1);
        assert(acc.push(actions[k]) + actions.skip(k + 1) =~= acc + actions.skip(k));
    }
}

/// One composed project element interprets back to the project it came
/// from, whatever defaults are in force.
proof fn lemma_project_roundtrip(p: ProjectModel, def_rev: Seq<char>, def_uri: Seq<char>)
    requires
        sp_canonical_project(p),
    ensures
        sp_project_of(sp_elem_of_project(p), def_rev, def_uri) == Ok::<
            ProjectModel,
            ParseFailure,
        >(p),
{
    lemma_key_distinct();
    let e = sp_elem_of_project(p);
    let tail1 = e.attrs.drop_first();
    assert(tail1 =~= seq![e.attrs[1], e.attrs[2], e.attrs[3]]);
    let tail2 = tail1.drop_first();
    assert(tail2 =~= seq![e.attrs[2], e.attrs[3]]);
    let tail3 = tail2.drop_first();
    assert(tail3 =~= seq![e.attrs[3]]);
    assert(sp_attr_lookup(e.attrs, "uri"@) == Some(p.uri));
    assert(sp_attr_lookup(tail1, "name"@) == Some(p.name));
    assert(sp_attr_lookup(e.attrs, "name"@) == Some(p.name));
    assert(sp_attr_lookup(tail2, "path"@) == Some(p.path));
    assert(sp_attr_lookup(tail1, "path"@) == Some(p.path));
    assert(sp_attr_lookup(e.attrs, "path"@) == Some(p.path));
    assert(sp_attr_lookup(tail3, "revision"@) == Some(p.revision));
    assert(sp_attr_lookup(tail2, "revision"@) == Some(p.revision));
    assert(sp_attr_lookup(tail1, "revision"@) == Some(p.revision));
    assert(sp_attr_lookup(e.attrs, "revision"@) == Some(p.revision));
    lemma_actions_roundtrip(p.actions, Seq::empty(), 0);
    assert(Seq::<ActionModel>::empty() + p.actions.skip(0) =~= p.actions);
    crate::project::lemma_normalize_sorted_identity(p.actions);
    assert(sp_project_of(e, def_rev, def_uri) == Ok::<ProjectModel, ParseFailure>(
        ProjectModel {
            uri: p.uri,
            name: p.name,
            revision: p.revision,
            path: p.path,
            actions: p.actions,
        },
    ));
    assert(ProjectModel {
        uri: p.uri,
        name: p.name,
        revision: p.revision,
        path: p.path,
        actions: p.actions,
    } == p);
}

/// Composed elements hold no `default` element.
proof fn lemma_no_default(elems: Seq<ElemM>)
    requires
        forall|q: int| 0 <= q < elems.len() ==> (#[trigger] elems[q]).tag == "project"@,
        "project"@ != "default"@,
    ensures
        sp_find_default(elems) is None,
    decreases elems.len(),
{
    if elems.len() > 0 {
        assert forall|q: int| 0 <= q < elems.drop_first().len() implies (
        #[trigger] elems.drop_first()[q]).tag == "project"@ by {
            assert(elems.drop_first()[q] == elems[q + 1]);
        }
        lemma_no_default(elems.drop_first());
    }
}

/// The composed elements of a project list interpret back to that list.
proof fn lemma_projects_roundtrip(
    ps: Seq<ProjectModel>,
    def_rev: Seq<char>,
    def_uri: Seq<char>,
    k: int,
)
    requires
        0 <= k <= ps.len(),
        forall|q: int| 0 <= q < ps.len() ==> sp_canonical_project(#[trigger] ps[q]),
    ensures
        sp_projects_from(sp_elems_of(ps), k as nat, def_rev, def_uri) == Ok::<
            Seq<ProjectModel>,
            ParseFailure,
        >(ps.skip(k)),
    decreases ps.len() - k,
{
    if k == ps.len() {
        assert(ps.skip(k) =~= Seq::<ProjectModel>::empty());
    } else {
        lemma_project_roundtrip(ps[k], def_rev, def_uri);
        lemma_projects_roundtrip(ps, def_rev, def_uri, k + 1);
        assert(seq![ps[k]] + ps.skip(k + 1) =~= ps.skip(k));
    }
}

/// Round trip: parsing the canonical text of a project list yields exactly
/// those projects — for every project whose fields can stand in attributes
/// and whose action list is in the normal form the library maintains (a
/// delete action, if any, alone at the end).
pub proof fn lemma_compose_parse_round_trip(ps: Seq<ProjectModel>)
    requires
        forall|q: int| 0 <= q < ps.len() ==> sp_canonical_project(#[trigger] ps[q]),
    ensures
        spec_parse_manifest(spec_compose_manifest(ps)) == Ok::<Seq<ProjectModel>, ParseFailure>(
            ps,
        ),
{
    lemma_parse_doc_canonical(ps);
    lemma_key_distinct();
    let elems = sp_elems_of(ps);
    assert forall|q: int| 0 <= q < elems.len() implies (#[trigger] elems[q]).tag
        == "project"@ by {}
    lemma_no_default(elems);
    lemma_projects_roundtrip(ps, sp_default_revision(elems), sp_default_uri(elems), 0);
    assert(ps.skip(0) =~= ps);
}

// ---------------------------------------------------------------------
// parse output is canonical, so composing it is a fixed point

pub open spec fn sp_attrs_canonical(attrs: Seq<AttrM>) -> bool {
    forall|q: int| 0 <= q < attrs.len() ==> sp_canonical_text((#[trigger] attrs[q]).value)
}

pub open spec fn sp_child_canonical(c: ChildM) -> bool {
    sp_attrs_canonical(c.attrs)
}

pub open spec fn sp_elem_canonical(e: ElemM) -> bool {
    &&& sp_attrs_canonical(e.attrs)
    &&& forall|q: int| 0 <= q < e.children.len() ==> sp_child_canonical(#[trigger] e.children[q])
}

/// No double quote stands before the closing quote a value scan finds.
proof fn lemma_value_no_quote(t: Seq<char>, i: nat)
    requires
        i <= t.len(),
    ensures
        sp_value_end(t, i) matches Some(e) ==> i <= e < t.len() && forall|k: int|
            i <= k < e ==> #[trigger] t[k] != '"',
    decreases t.len() - i,
{
    if i < t.len() && t[i as int] != '"' {
        lemma_value_no_quote(t, i + 1);
    }
}

/// A parsed attribute's value can stand in an attribute again.
proof fn lemma_attr_canonical(t: Seq<char>, i: nat)
    requires
        i <= t.len(),
    ensures
        sp_parse_attr(t, i) matches Some((a, j)) ==> sp_canonical_text(a.value),
{
    lemma_name_end_run_bound(t, i);
    let ke = sp_name_end(t, i);
    if ke != i {
        lemma_skip_ws_run_bound(t, ke);
        let j = sp_skip_ws(t, ke);
        if j < t.len() && t[j as int] == '=' {
            lemma_skip_ws_run_bound(t, (j + 1) as nat);
            let j2 = sp_skip_ws(t, j + 1);
            if j2 < t.len() && t[j2 as int] == '"' {
                lemma_value_no_quote(t, (j2 + 1) as nat);
                match sp_value_end(t, (j2 + 1) as nat) {
                    None => {},
                    Some(ve) => {
                        let v = t.subrange((j2 + 1) as int, ve as int);
                        assert forall|k: int| 0 <= k < v.len() implies #[trigger] v[k]
                            != '"' by {
                            assert(v[k] == t[j2 + 1 + k]);
                        }
                    },
                }
            }
        }
    }
}

/// Whitespace skipping stays within the text.
proof fn lemma_skip_ws_run_bound(t: Seq<char>, i: nat)
    requires
        i <= t.len(),
    ensures
        i <= sp_skip_ws(t, i) <= t.len(),
    decreases t.len() - i,
{
    if i < t.len() && sp_is_ws(t[i as int]) {
        lemma_skip_ws_run_bound(t, i + 1);
    }
}

/// Every parsed attribute list holds values that can stand in attributes.
proof fn lemma_attrs_canonical(t: Seq<char>, i: nat)
    requires
        i <= t.len(),
    ensures
        sp_parse_attrs(t, i) matches Some((attrs, j)) ==> sp_attrs_canonical(attrs),
    decreases t.len() - i,
{
    let j = sp_skip_ws(t, i);
    if j < t.len() && !(t[j as int] == '/' || t[j as int] == '>') {
        lemma_skip_ws_run_bound(t, i);
        lemma_attr_canonical(t, j);
        match sp_parse_attr(t, j) {
            None => {},
            Some((a, j2)) => {
                if i < j2 <= t.len() {
                    lemma_attrs_canonical(t, j2);
                    match sp_parse_attrs(t, j2) {
                        None => {},
                        Some((rest, _)) => {
                            assert forall|q: int| 0 <= q < (seq![a] + rest).len() implies
                                sp_canonical_text(((#[trigger] (seq![a] + rest)[q])).value) by {
                                if q > 0 {
                                    assert((seq![a] + rest)[q] == rest[q - 1]);
                                }
                            }
                        },
                    }
                }
            },
        }
    }
}

/// A parsed child element holds canonical attribute values.
proof fn lemma_child_canonical(t: Seq<char>, i: nat)
    requires
        i <= t.len(),
    ensures
        sp_parse_child(t, i) matches Some((c, j)) ==> sp_child_canonical(c),
{
    if i < t.len() && t[i as int] == '<' {
        let te = sp_name_end(t, i + 1);
        if te != i + 1 {
            lemma_name_end_run_bound(t, (i + 1) as nat);
            lemma_attrs_canonical(t, te);
        }
    }
}

/// Name scanning stays within the text.
proof fn lemma_name_end_run_bound(t: Seq<char>, i: nat)
    requires
        i <= t.len(),
    ensures
        i <= sp_name_end(t, i) <= t.len(),
    decreases t.len() - i,
{
    if i < t.len() && sp_is_name_char(t[i as int]) {
        lemma_name_end_run_bound(t, i + 1);
    }
}

/// Every parsed child list holds canonical attribute values.
proof fn lemma_children_canonical(t: Seq<char>, i: nat)
    requires
        i <= t.len(),
    ensures
        sp_parse_children(t, i) matches Some((cs, j)) ==> forall|q: int|
            0 <= q < cs.len() ==> sp_child_canonical(#[trigger] cs[q]),
    decreases t.len() - i,
{
    match sp_skip_trivia(t, i) {
        None => {},
        Some(j) => {
            if i <= j <= t.len() {
                if j + 2 <= t.len() && t[j as int] == '<' && t[(j + 1) as int] == '/' {
                } else {
                    lemma_child_canonical(t, j);
                    match sp_parse_child(t, j) {
                        None => {},
                        Some((c, j2)) => {
                            if i < j2 <= t.len() {
                                lemma_children_canonical(t, j2);
                                match sp_parse_children(t, j2) {
                                    None => {},
                                    Some((rest, _)) => {
                                        assert forall|q: int| 0 <= q < (seq![c] + rest).len()
                                            implies sp_child_canonical(
                                            #[trigger] (seq![c] + rest)[q],
                                        ) by {
                                            if q > 0 {
                                                assert((seq![c] + rest)[q] == rest[q - 1]);
                                            }
                                        }
                                    },
                                }
                            }
                        },
                    }
                }
            }
        },
    }
}

/// A parsed element holds canonical attribute values throughout.
proof fn lemma_elem_canonical(t: Seq<char>, i: nat)
    requires
        i <= t.len(),
    ensures
        sp_parse_elem(t, i) matches Some((e, j)) ==> sp_elem_canonical(e),
{
    if i < t.len() && t[i as int] == '<' {
        let te = sp_name_end(t, i + 1);
        if te != i + 1 {
            lemma_name_end_run_bound(t, (i + 1) as nat);
            lemma_attrs_canonical(t, te);
            match sp_parse_attrs(t, te) {
                None => {},
                Some((attrs, j)) => {
                    if j + 2 <= t.len() && t[j as int] == '/' && t[(j + 1) as int] == '>' {
                    } else if j < t.len() && t[j as int] == '>' {
                        lemma_children_canonical(t, (j + 1) as nat);
                    }
                },
            }
        }
    }
}

/// Every element of a parsed document holds canonical attribute values.
proof fn lemma_content_canonical(t: Seq<char>, i: nat)
    requires
        i <= t.len(),
    ensures
        sp_parse_content(t, i) matches Some((es, j)) ==> forall|q: int|
            0 <= q < es.len() ==> sp_elem_canonical(#[trigger] es[q]),
    decreases t.len() - i,
{
    match sp_skip_trivia(t, i) {
        None => {},
        Some(j) => {
            if i <= j <= t.len() {
                if j + 2 <= t.len() && t[j as int] == '<' && t[(j + 1) as int] == '/' {
                } else {
                    lemma_elem_canonical(t, j);
                    match sp_parse_elem(t, j) {
                        None => {},
                        Some((e, j2)) => {
                            if i < j2 <= t.len() {
                                lemma_content_canonical(t, j2);
                                match sp_parse_content(t, j2) {
                                    None => {},
                                    Some((rest, _)) => {
                                        assert forall|q: int| 0 <= q < (seq![e] + rest).len()
                                            implies sp_elem_canonical(
                                            #[trigger] (seq![e] + rest)[q],
                                        ) by {
                                            if q > 0 {
                                                assert((seq![e] + rest)[q] == rest[q - 1]);
                                            }
                                        }
                                    },
                                }
                            }
                        },
                    }
                }
            }
        },
    }
}

proof fn lemma_doc_canonical(t: Seq<char>)
    ensures
        sp_parse_doc(t) matches Some(elems) ==> forall|q: int|
            0 <= q < elems.len() ==> sp_elem_canonical(#[trigger] elems[q]),
{
    match sp_skip_trivia(t, 0) {
        None => {},
        Some(i) => {
            if i < t.len() && t[i as int] == '<' {
                let te = sp_name_end(t, i + 1);
                if !(te == i + 1 || t.subrange((i + 1) as int, te as int) != "manifest"@) {
                    lemma_name_end_run_bound(t, (i + 1) as nat);
                    match sp_parse_attrs(t, te) {
                        None => {},
                        Some((_attrs, j)) => {
                            if j < t.len() && t[j as int] == '>' {
                                lemma_content_canonical(t, (j + 1) as nat);
                            }
                        },
                    }
                }
            }
        },
    }
}

/// A lookup in a canonical attribute list yields canonical text.
proof fn lemma_lookup_canonical(attrs: Seq<AttrM>, key: Seq<char>)
    requires
        sp_attrs_canonical(attrs),
    ensures
        sp_attr_lookup(attrs, key) matches Some(v) ==> sp_canonical_text(v),
    decreases attrs.len(),
{
    if attrs.len() > 0 && attrs[0].key != key {
        assert forall|q: int| 0 <= q < attrs.drop_first().len() implies sp_canonical_text(
            (#[trigger] attrs.drop_first()[q]).value,
        ) by {
            assert(attrs.drop_first()[q] == attrs[q + 1]);
        }
        lemma_lookup_canonical(attrs.drop_first(), key);
    }
}

/// Every element of the two parts is an element of the original list.
proof fn lemma_parts_contained(s: Seq<ActionModel>)
    ensures
        forall|q: int|
            0 <= q < crate::project::sp_file_part(s).len() ==> s.contains(
                #[trigger] crate::project::sp_file_part(s)[q],
            ),
        forall|q: int|
            0 <= q < crate::project::sp_delete_part(s).len() ==> s.contains(
                #[trigger] crate::project::sp_delete_part(s)[q],
            ),
    decreases s.len(),
{
    if s.len() > 0 {
        lemma_parts_contained(s.drop_last());
        assert forall|q: int| 0 <= q < crate::project::sp_file_part(s).len() implies s.contains(
            #[trigger] crate::project::sp_file_part(s)[q],
        ) by {
            let fp = crate::project::sp_file_part(s);
            let fpd = crate::project::sp_file_part(s.drop_last());
            if !(s.last() is DeleteProject) && q == fp.len() - 1 {
                assert(fp[q] == s.last());
                assert(s[s.len() - 1] == s.last());
            } else {
                assert(fp[q] == fpd[q]);
                assert(s.drop_last().contains(fpd[q]));
                let w = choose|w: int|
                    0 <= w < s.drop_last().len() && s.drop_last()[w] == fpd[q];
                assert(s[w] == fpd[q]);
            }
        }
        assert forall|q: int| 0 <= q < crate::project::sp_delete_part(s).len() implies s.contains(
            #[trigger] crate::project::sp_delete_part(s)[q],
        ) by {
            let dp = crate::project::sp_delete_part(s);
            let dpd = crate::project::sp_delete_part(s.drop_last());
            if s.last() is DeleteProject && q == dp.len() - 1 {
                assert(dp[q] == s.last());
                assert(s[s.len() - 1] == s.last());
            } else {
                assert(dp[q] == dpd[q]);
                assert(s.drop_last().contains(dpd[q]));
                let w = choose|w: int|
                    0 <= w < s.drop_last().len() && s.drop_last()[w] == dpd[q];
                assert(s[w] == dpd[q]);
            }
        }
    }
}

/// Interpreting canonical children yields canonical actions with at most
/// one delete.
proof fn lemma_actions_canonical(children: Seq<ChildM>, acc: Seq<ActionModel>, k: nat)
    requires
        k <= children.len(),
        forall|q: int| 0 <= q < children.len() ==> sp_child_canonical(#[trigger] children[q]),
        forall|q: int| 0 <= q < acc.len() ==> sp_canonical_action(#[trigger] acc[q]),
        crate::project::sp_delete_part(acc).len() <= 1,
    ensures
        sp_actions_from(acc, children, k) matches Ok(res) ==> (forall|q: int|
            0 <= q < res.len() ==> sp_canonical_action(#[trigger] res[q]))
            && crate::project::sp_delete_part(res).len() <= 1,
    decreases children.len() - k,
{
    if k < children.len() {
        let c = children[k as int];
        match sp_child_action(acc, c) {
            Err(_) => {},
            Ok(acc2) => {
                assert(forall|q: int| 0 <= q < acc2.len() ==> sp_canonical_action(
                    #[trigger] acc2[q],
                ) && crate::project::sp_delete_part(acc2).len() <= 1) by {
                    if sp_file_action_of(c.tag, Seq::empty(), Seq::empty()) is Some {
                        match (sp_attr_lookup(c.attrs, "src"@), sp_attr_lookup(c.attrs, "dest"@)) {
                            (Some(sv), Some(dv)) => {
                                lemma_lookup_canonical(c.attrs, "src"@);
                                lemma_lookup_canonical(c.attrs, "dest"@);
                                let a = sp_file_action_of(c.tag, sv, dv).unwrap();
                                assert(sp_canonical_action(a));
                                assert(acc2 == acc.push(a));
                                crate::project::lemma_parts_push(acc, a);
                                assert forall|q: int| 0 <= q < acc2.len() implies
                                    sp_canonical_action(#[trigger] acc2[q]) by {
                                    if q == acc.len() {
                                        assert(acc2[q] == a);
                                    } else {
                                        assert(acc2[q] == acc[q]);
                                    }
                                }
                            },
                            _ => {},
                        }
                    } else if c.tag == "delete_project"@ {
                        if sp_has_delete(acc) {
                        } else {
                            crate::project::lemma_has_delete_iff(acc);
                            crate::project::lemma_parts_push(acc, ActionModel::DeleteProject);
                            assert forall|q: int| 0 <= q < acc2.len() implies sp_canonical_action(
                                #[trigger] acc2[q],
                            ) by {
                                if q == acc.len() {
                                    assert(acc2[q] == ActionModel::DeleteProject);
                                } else {
                                    assert(acc2[q] == acc[q]);
                                }
                            }
                        }
                    }
                }
                lemma_actions_canonical(children, acc2, k + 1);
            },
        }
    }
}

/// Interpreting a canonical element under canonical defaults yields a
/// canonical project: its fields can stand in attributes and its action
/// list is in normal form.
proof fn lemma_project_canonical(e: ElemM, def_rev: Seq<char>, def_uri: Seq<char>)
    requires
        sp_elem_canonical(e),
        sp_canonical_text(def_rev),
        sp_canonical_text(def_uri),
    ensures
        sp_project_of(e, def_rev, def_uri) matches Ok(pm) ==> sp_canonical_project(pm),
{
    lemma_lookup_canonical(e.attrs, "name"@);
    lemma_lookup_canonical(e.attrs, "path"@);
    lemma_lookup_canonical(e.attrs, "revision"@);
    lemma_lookup_canonical(e.attrs, "uri"@);
    assert(crate::project::sp_delete_part(Seq::<ActionModel>::empty()).len() <= 1) by {
        assert(crate::project::sp_delete_part(Seq::<ActionModel>::empty())
            == Seq::<ActionModel>::empty());
    }
    lemma_actions_canonical(e.children, Seq::empty(), 0);
    match sp_actions_from(Seq::empty(), e.children, 0) {
        Err(_) => {},
        Ok(res) => {
            let norm = sp_normalize_actions(res);
            let fp = crate::project::sp_file_part(res);
            let dp = crate::project::sp_delete_part(res);
            crate::project::lemma_parts_shape(res);
            lemma_parts_contained(res);
            assert forall|q: int| 0 <= q < norm.len() implies sp_canonical_action(
                #[trigger] norm[q],
            ) by {
                if q < fp.len() {
                    assert(norm[q] == fp[q]);
                    assert(res.contains(fp[q]));
                    let w = choose|w: int| 0 <= w < res.len() && res[w] == fp[q];
                    assert(sp_canonical_action(res[w]));
                } else {
                    assert(norm[q] == dp[q - fp.len()]);
                    assert(res.contains(dp[q - fp.len()]));
                    let w = choose|w: int|
                        0 <= w < res.len() && res[w] == dp[q - fp.len()];
                    assert(sp_canonical_action(res[w]));
                }
            }
            assert forall|q: int| 0 <= q < norm.len() - 1 implies !(#[trigger] norm[q]
                is DeleteProject) by {
                if q < fp.len() {
                    assert(norm[q] == fp[q]);
                } else {
                    assert(q - fp.len() < dp.len() - 1);
                }
            }
        },
    }
}

/// The resolved defaults of canonical elements are canonical text.
proof fn lemma_defaults_canonical(elems: Seq<ElemM>)
    requires
        forall|q: int| 0 <= q < elems.len() ==> sp_elem_canonical(#[trigger] elems[q]),
    ensures
        sp_canonical_text(sp_default_revision(elems)),
        sp_canonical_text(sp_default_uri(elems)),
{
    lemma_find_default_canonical(elems);
    reveal_strlit("main");
    reveal_strlit("github.com");
    assert("main"@.len() == 4 && "github.com"@.len() == 10);
    assert(sp_canonical_text("main"@));
    assert(sp_canonical_text("github.com"@));
    match sp_find_default(elems) {
        None => {},
        Some(attrs) => {
            lemma_lookup_canonical(attrs, "revision"@);
            lemma_lookup_canonical(attrs, "uri"@);
        },
    }
}

/// The default element found among canonical elements holds canonical
/// attribute values.
proof fn lemma_find_default_canonical(elems: Seq<ElemM>)
    requires
        forall|q: int| 0 <= q < elems.len() ==> sp_elem_canonical(#[trigger] elems[q]),
    ensures
        sp_find_default(elems) matches Some(attrs) ==> sp_attrs_canonical(attrs),
    decreases elems.len(),
{
    if elems.len() > 0 && elems[0].tag != "default"@ {
        assert forall|q: int| 0 <= q < elems.drop_first().len() implies sp_elem_canonical(
            #[trigger] elems.drop_first()[q],
        ) by {
            assert(elems.drop_first()[q] == elems[q + 1]);
        }
        lemma_find_default_canonical(elems.drop_first());
    }
}

/// Interpreting canonical elements yields canonical projects throughout.
proof fn lemma_projects_canonical(
    elems: Seq<ElemM>,
    k: nat,
    def_rev: Seq<char>,
    def_uri: Seq<char>,
)
    requires
        k <= elems.len(),
        forall|q: int| 0 <= q < elems.len() ==> sp_elem_canonical(#[trigger] elems[q]),
        sp_canonical_text(def_rev),
        sp_canonical_text(def_uri),
    ensures
        sp_projects_from(elems, k, def_rev, def_uri) matches Ok(ps) ==> forall|q: int|
            0 <= q < ps.len() ==> sp_canonical_project(#[trigger] ps[q]),
    decreases elems.len() - k,
{
    if k < elems.len() {
        if elems[k as int].tag == "project"@ {
            lemma_project_canonical(elems[k as int], def_rev, def_uri);
            match sp_project_of(elems[k as int], def_rev, def_uri) {
                Err(_) => {},
                Ok(p) => {
                    lemma_projects_canonical(elems, k + 1, def_rev, def_uri);
                    match sp_projects_from(elems, k + 1, def_rev, def_uri) {
                        Err(_) => {},
                        Ok(rest) => {
                            assert forall|q: int| 0 <= q < (seq![p] + rest).len() implies
                                sp_canonical_project(#[trigger] (seq![p] + rest)[q]) by {
                                if q > 0 {
                                    assert((seq![p] + rest)[q] == rest[q - 1]);
                                }
                            }
                        },
                    }
                },
            }
        } else {
            lemma_projects_canonical(elems, k + 1, def_rev, def_uri);
        }
    }
}

/// Whatever it parsed from, every project the parser yields is canonical:
/// its fields hold no double quote and its action list is in normal form.
pub proof fn lemma_parse_gives_canonical(t: Seq<char>)
    ensures
        spec_parse_manifest(t) matches Ok(ps) ==> forall|q: int|
            0 <= q < ps.len() ==> sp_canonical_project(#[trigger] ps[q]),
{
    match sp_parse_doc(t) {
        None => {},
        Some(elems) => {
            lemma_doc_canonical(t);
            lemma_defaults_canonical(elems);
            lemma_projects_canonical(
                elems,
                0,
                sp_default_revision(elems),
                sp_default_uri(elems),
            );
        },
    }
}

/// Composing what was parsed is a fixed point: for every parseable
/// manifest text, the recomposed document parses back to the same
/// projects, so the tool's own output always reproduces itself byte for
/// byte.
pub proof fn lemma_parse_compose_fixed_point(t: Seq<char>)
    ensures
        spec_parse_manifest(t) matches Ok(ps) ==> spec_parse_manifest(spec_compose_manifest(ps))
            == Ok::<Seq<ProjectModel>, ParseFailure>(ps),
{
    match spec_parse_manifest(t) {
        Err(_) => {},
        Ok(ps) => {
            lemma_parse_gives_canonical(t);
            lemma_compose_parse_round_trip(ps);
        },
    }
}

} // verus!
