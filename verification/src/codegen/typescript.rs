//! The TypeScript emitters: a module exporting the tree as a constant,
//! and a declaration file typing every leaf as `string`. Keys that form
//! identifiers are written bare, all others quoted.

use vstd::prelude::*;

use crate::codegen::json::format_string;
use crate::codegen::{
    lemma_object_view, spec_object_view, CodegenError, Object, TreeView, Value,
};
use crate::strutil::push_char;

verus! {

/// Whether a character may start an identifier, by the Unicode `XID_Start`
/// classification.
pub uninterp spec fn spec_xid_start(c: char) -> bool;

/// Whether a character may continue an identifier, by the Unicode
/// `XID_Continue` classification.
pub uninterp spec fn spec_xid_continue(c: char) -> bool;

/// Relies on unicode_ident::is_xid_start: a fixed classification of the
/// character alone.
#[verifier::external_body]
fn xid_start(c: char) -> (r: bool)
    ensures
        r == spec_xid_start(c),
{
    unicode_ident::is_xid_start(c)
}

/// Relies on unicode_ident::is_xid_continue: a fixed classification of
/// the character alone.
#[verifier::external_body]
fn xid_continue(c: char) -> (r: bool)
    ensures
        r == spec_xid_continue(c),
{
    unicode_ident::is_xid_continue(c)
}

/// Tests whether a character may start an identifier.
fn is_id_start(c: char) -> (r: bool)
    ensures
        r == (spec_xid_start(c) || c == '$' || c == '_'),
{
    if c == '$' || c == '_' {
        true
    } else {
        xid_start(c)
    }
}

/// Tests whether a character may continue an identifier.
fn is_id_part(c: char) -> (r: bool)
    ensures
        r == (spec_xid_continue(c) || c == '$'),
{
    if c == '$' {
        true
    } else {
        xid_continue(c)
    }
}

/// A key that can be written without quotes: nonempty, starting with an
/// identifier-start character, continuing with identifier characters.
pub open spec fn spec_is_id(s: Seq<char>) -> bool {
    &&& s.len() > 0
    &&& (spec_xid_start(s[0]) || s[0] == '$' || s[0] == '_')
    &&& forall|i: int| 1 <= i < s.len() ==> spec_xid_continue(#[trigger] s[i]) || s[i] == '$'
}

/// Tests whether a key can be written without quotes.
pub fn is_id(s: &str) -> (r: bool)
    ensures
        r == spec_is_id(s@),
{
    let n = s.unicode_len();
    if n == 0 {
        return false;
    }
    if !is_id_start(s.get_char(0)) {
        return false;
    }
    for i in 1..n
        invariant
            n == s@.len(),
            n > 0,
            spec_xid_start(s@[0]) || s@[0] == '$' || s@[0] == '_',
            forall|j: int| 1 <= j < i ==> spec_xid_continue(#[trigger] s@[j]) || s@[j] == '$',
    {
        if !is_id_part(s.get_char(i)) {
            return false;
        }
    }
    true
}

/// A key as written in the output: bare for identifiers, quoted
/// otherwise.
pub open spec fn spec_ts_key(k: Seq<char>) -> Seq<char> {
    if spec_is_id(k) {
        k
    } else {
        seq!['"'] + k + seq!['"']
    }
}

/// Renders a key.
pub fn format_key(s: &str) -> (r: String)
    ensures
        r@ == spec_ts_key(s@),
{
    if is_id(s) {
        s.to_owned()
    } else {
        format_string(s)
    }
}

/// The rendering of one tree node: a leaf is its quoted id — or the type
/// `string` in declaration outputs; an object opens a brace, renders each
/// entry one per line ending in a comma — a semicolon in declaration
/// outputs — and closes the brace at the parent's indent.
pub open spec fn spec_ts_value(v: TreeView, ind: Seq<char>, decl: bool) -> Seq<char>
    decreases v, 0int,
    via spec_ts_value_decreases
{
    match v {
        TreeView::Leaf(id) => if decl {
            "string"@
        } else {
            seq!['"'] + id + seq!['"']
        },
        TreeView::Node(entries) => seq!['{', '\n'] + spec_ts_entries(
            entries,
            0,
            ind + seq!['\t'],
            decl,
        ) + ind + seq!['}'],
    }
}

#[via_fn]
proof fn spec_ts_value_decreases(v: TreeView, ind: Seq<char>, decl: bool) {
    match v {
        TreeView::Leaf(_) => {},
        TreeView::Node(entries) => {
            assert(decreases_to!(v, 0int => entries, entries.len() - 0)) by {
                assert(decreases_to!(v => entries));
            }
        },
    }
}

pub open spec fn spec_ts_entries(
    entries: Seq<(Seq<char>, TreeView)>,
    i: int,
    ind1: Seq<char>,
    decl: bool,
) -> Seq<char>
    decreases entries, entries.len() - i,
    via spec_ts_entries_decreases
{
    if i < 0 || i >= entries.len() {
        Seq::empty()
    } else {
        ind1 + spec_ts_key(entries[i].0) + seq![':', ' '] + spec_ts_value(entries[i].1, ind1, decl)
            + seq![if decl {
            ';'
        } else {
            ','
        }] + seq!['\n'] + spec_ts_entries(entries, i + 1, ind1, decl)
    }
}

#[via_fn]
proof fn spec_ts_entries_decreases(
    entries: Seq<(Seq<char>, TreeView)>,
    i: int,
    ind1: Seq<char>,
    decl: bool,
) {
    if 0 <= i < entries.len() {
        assert(decreases_to!(entries, entries.len() - i => entries[i].1, 0int)) by {
            assert(decreases_to!(entries => entries[i]));
            assert(decreases_to!(entries[i] => entries[i].1));
        }
    }
}

/// Renders an object node and everything under it.
#[verifier::rlimit(60)]
pub fn format_object(obj: &Object, ind: &str, declaration: bool) -> (r: String)
    ensures
        r@ == spec_ts_value(TreeView::Node(spec_object_view(*obj)), ind@, declaration),
    decreases *obj,
{
    let ghost ov = spec_object_view(*obj);
    let mut r = String::new();
    r.append("{\n");
    let mut ind1 = ind.to_owned();
    push_char(&mut ind1, '\t');
    let n = obj.entries.len();
    proof {
        lemma_object_view(*obj);
        reveal_strlit("{\n");
        assert("{\n"@ =~= seq!['{', '\n']);
        assert(r@ =~= seq!['{', '\n']);
    }
    for i in 0..n
        invariant
            n == obj.entries@.len(),
            ov == spec_object_view(*obj),
            ov.len() == n,
            ind1@ == ind@ + seq!['\t'],
            seq!['{', '\n'] + spec_ts_entries(ov, 0, ind1@, declaration) == r@ + spec_ts_entries(
                ov,
                i as int,
                ind1@,
                declaration,
            ),
    {
        let ghost r0 = r@;
        let e = &obj.entries[i];
        r.append(ind1.as_str());
        let q = format_key(e.0.as_str());
        r.append(q.as_str());
        r.append(": ");
        let ghost rendered: Seq<char> = spec_ts_value(ov[i as int].1, ind1@, declaration);
        match &e.1 {
            Value::Object(sub) => {
                let child = format_object(sub, ind1.as_str(), declaration);
                r.append(child.as_str());
                proof {
                    lemma_object_view(*obj);
                    assert(ov[i as int].1 == TreeView::Node(spec_object_view(*sub)));
                    assert(child@ == rendered);
                }
            },
            Value::Id(id) => {
                if declaration {
                    r.append("string");
                } else {
                    let q2 = format_string(id.as_str());
                    r.append(q2.as_str());
                }
                proof {
                    lemma_object_view(*obj);
                    assert(ov[i as int].1 == TreeView::Leaf(id@));
                }
            },
        }
        if declaration {
            r.append(";");
        } else {
            r.append(",");
        }
        r.append("\n");
        proof {
            lemma_object_view(*obj);
            reveal_strlit(": ");
            reveal_strlit(";");
            reveal_strlit(",");
            reveal_strlit("\n");
            assert(ov[i as int].0 == e.0@);
            assert(r@ =~= r0 + (ind1@ + spec_ts_key(ov[i as int].0) + seq![':', ' '] + rendered
                + seq![if declaration {
                ';'
            } else {
                ','
            }] + seq!['\n']));
            assert(spec_ts_entries(ov, i as int, ind1@, declaration) == (ind1@ + spec_ts_key(
                ov[i as int].0,
            ) + seq![':', ' '] + rendered + seq![if declaration {
                ';'
            } else {
                ','
            }] + seq!['\n']) + spec_ts_entries(ov, i + 1, ind1@, declaration));
            assert(seq!['{', '\n'] + spec_ts_entries(ov, 0, ind1@, declaration) =~= r@
                + spec_ts_entries(ov, i + 1, ind1@, declaration));
        }
    }
    proof {
        assert(spec_ts_entries(ov, n as int, ind1@, declaration) == Seq::<char>::empty());
        assert(r@ =~= seq!['{', '\n'] + spec_ts_entries(ov, 0, ind1@, declaration));
    }
    r.append(ind);
    r.append("}");
    proof {
        reveal_strlit("}");
        assert("}"@ =~= seq!['}']);
        assert(r@ =~= seq!['{', '\n'] + spec_ts_entries(ov, 0, ind1@, declaration) + ind@
            + seq!['}']);
    }
    r
}

/// The comment every output opens with.
pub open spec fn spec_ts_header() -> Seq<char> {
    "// Runway asset index. Not intended for manual editing."@
}

/// Renders the tree as a module exporting it as a constant.
pub fn generate_typescript(tree: &Value) -> (r: Result<String, CodegenError>)
    requires
        tree is Object,
    ensures
        match r {
            Ok(s) => s@ == spec_ts_header() + "\nexport default "@ + spec_ts_value(
                crate::codegen::spec_value_view(*tree),
                Seq::<char>::empty(),
                false,
            ) + " as const;\n"@,
            Err(_) => false,
        },
{
    match tree {
        Value::Object(root) => {
            let body = format_object(root, "", false);
            let mut s = "// Runway asset index. Not intended for manual editing.".to_owned();
            s.append("\nexport default ");
            s.append(body.as_str());
            s.append(" as const;\n");
            proof {
                reveal_strlit("");
                assert(""@ =~= Seq::<char>::empty());
                assert(s@ =~= spec_ts_header() + "\nexport default "@ + spec_ts_value(
                    crate::codegen::spec_value_view(*tree),
                    Seq::<char>::empty(),
                    false,
                ) + " as const;\n"@);
            }
            Ok(s)
        },
        Value::Id(_) => {
            proof {
                assert(false);
            }
            Err(CodegenError::TreeStructure)
        },
    }
}

/// Renders the tree as a declaration file typing every leaf as `string`.
pub fn generate_typescript_declaration(tree: &Value) -> (r: Result<String, CodegenError>)
    requires
        tree is Object,
    ensures
        match r {
            Ok(s) => s@ == spec_ts_header() + "\ndeclare const assets: "@ + spec_ts_value(
                crate::codegen::spec_value_view(*tree),
                Seq::<char>::empty(),
                true,
            ) + ";\n\nexport = assets;\n"@,
            Err(_) => false,
        },
{
    match tree {
        Value::Object(root) => {
            let body = format_object(root, "", true);
            let mut s = "// Runway asset index. Not intended for manual editing.".to_owned();
            s.append("\ndeclare const assets: ");
            s.append(body.as_str());
            s.append(";\n\nexport = assets;\n");
            proof {
                reveal_strlit("");
                assert(""@ =~= Seq::<char>::empty());
                assert(s@ =~= spec_ts_header() + "\ndeclare const assets: "@ + spec_ts_value(
                    crate::codegen::spec_value_view(*tree),
                    Seq::<char>::empty(),
                    true,
                ) + ";\n\nexport = assets;\n"@);
            }
            Ok(s)
        },
        Value::Id(_) => {
            proof {
                assert(false);
            }
            Err(CodegenError::TreeStructure)
        },
    }
}

} // verus!
