//! The JSON emitter: a purely structural rendering of the codegen tree,
//! tab-indented, with every key and id quoted.

use vstd::prelude::*;

use crate::codegen::{
    lemma_object_view, spec_object_view, CodegenError, Object, TreeView, Value,
};
use crate::strutil::push_char;

verus! {

/// The rendering of one tree node: ids are quoted; objects open a brace,
/// render each entry one per line — a comma after each but the last —
/// and close the brace at the parent's indent.
pub open spec fn spec_json_value(v: TreeView, ind: Seq<char>) -> Seq<char>
    decreases v, 0int,
    via spec_json_value_decreases
{
    match v {
        TreeView::Leaf(id) => seq!['"'] + id + seq!['"'],
        TreeView::Node(entries) => seq!['{', '\n'] + spec_json_entries(entries, 0, ind + seq!['\t'])
            + ind + seq!['}'],
    }
}

#[via_fn]
proof fn spec_json_value_decreases(v: TreeView, ind: Seq<char>) {
    match v {
        TreeView::Leaf(_) => {},
        TreeView::Node(entries) => {
            assert(decreases_to!(v, 0int => entries, entries.len() - 0)) by {
                assert(decreases_to!(v => entries));
            }
        },
    }
}

pub open spec fn spec_json_entries(
    entries: Seq<(Seq<char>, TreeView)>,
    i: int,
    ind1: Seq<char>,
) -> Seq<char>
    decreases entries, entries.len() - i,
    via spec_json_entries_decreases
{
    if i < 0 || i >= entries.len() {
        Seq::empty()
    } else {
        ind1 + seq!['"'] + entries[i].0 + seq!['"'] + seq![':', ' '] + spec_json_value(
            entries[i].1,
            ind1,
        ) + (if i + 1 < entries.len() {
            seq![',']
        } else {
            Seq::empty()
        }) + seq!['\n'] + spec_json_entries(entries, i + 1, ind1)
    }
}

#[via_fn]
proof fn spec_json_entries_decreases(entries: Seq<(Seq<char>, TreeView)>, i: int, ind1: Seq<char>) {
    if 0 <= i < entries.len() {
        assert(decreases_to!(entries, entries.len() - i => entries[i].1, 0int)) by {
            assert(decreases_to!(entries => entries[i]));
            assert(decreases_to!(entries[i] => entries[i].1));
        }
    }
}

/// Quotes a string.
pub fn format_string(s: &str) -> (r: String)
    ensures
        r@ == seq!['"'] + s@ + seq!['"'],
{
    let mut r = String::new();
    push_char(&mut r, '"');
    r.append(s);
    push_char(&mut r, '"');
    proof {
        assert(r@ =~= seq!['"'] + s@ + seq!['"']);
    }
    r
}

/// Renders an object node and everything under it.
pub fn format_object(obj: &Object, ind: &str) -> (r: String)
    ensures
        r@ == spec_json_value(TreeView::Node(spec_object_view(*obj)), ind@),
    decreases *obj,
{
    let ghost ov = spec_object_view(*obj);
    let mut r = String::new();
    r.append("{\n");
    let mut ind1 = ind.to_owned();
    push_char(&mut ind1, '\t');
    let n = obj.entries.len();
    proof {
        lemma_object_view(*obj);
        reveal_strlit("{\n");
        assert("{\n"@ =~= seq!['{', '\n']);
        assert(r@ =~= seq!['{', '\n']);
    }
    for i in 0..n
        invariant
            n == obj.entries@.len(),
            ov == spec_object_view(*obj),
            ov.len() == n,
            ind1@ == ind@ + seq!['\t'],
            seq!['{', '\n'] + spec_json_entries(ov, 0, ind1@) == r@ + spec_json_entries(
                ov,
                i as int,
                ind1@,
            ),
    {
        let ghost r0 = r@;
        let e = &obj.entries[i];
        r.append(ind1.as_str());
        let q = format_string(e.0.as_str());
        r.append(q.as_str());
        r.append(": ");
        let ghost rendered: Seq<char> = spec_json_value(ov[i as int].1, ind1@);
        match &e.1 {
            Value::Object(sub) => {
                let child = format_object(sub, ind1.as_str());
                r.append(child.as_str());
                proof {
                    lemma_object_view(*obj);
                    assert(ov[i as int].1 == TreeView::Node(spec_object_view(*sub)));
                    assert(child@ == rendered);
                }
            },
            Value::Id(id) => {
                let q2 = format_string(id.as_str());
                r.append(q2.as_str());
                proof {
                    lemma_object_view(*obj);
                    assert(ov[i as int].1 == TreeView::Leaf(id@));
                    assert(q2@ == rendered);
                }
            },
        }
        if i + 1 < n {
            r.append(",");
        }
        r.append("\n");
        proof {
            lemma_object_view(*obj);
            reveal_strlit(": ");
            reveal_strlit(",");
            reveal_strlit("\n");
            assert(ov[i as int].0 == e.0@);
            assert(r@ =~= r0 + (ind1@ + seq!['"'] + ov[i as int].0 + seq!['"'] + seq![':', ' ']
                + rendered + (if i + 1 < n {
                seq![',']
            } else {
                Seq::<char>::empty()
            }) + seq!['\n']));
            assert(spec_json_entries(ov, i as int, ind1@) == (ind1@ + seq!['"'] + ov[i as int].0
                + seq!['"'] + seq![':', ' '] + rendered + (if i + 1 < n {
                seq![',']
            } else {
                Seq::<char>::empty()
            }) + seq!['\n']) + spec_json_entries(ov, i + 1, ind1@));
            assert(seq!['{', '\n'] + spec_json_entries(ov, 0, ind1@) =~= r@ + spec_json_entries(
                ov,
                i + 1,
                ind1@,
            ));
        }
    }
    proof {
        assert(spec_json_entries(ov, n as int, ind1@) == Seq::<char>::empty());
        assert(r@ =~= seq!['{', '\n'] + spec_json_entries(ov, 0, ind1@));
    }
    r.append(ind);
    r.append("}");
    proof {
        reveal_strlit("}");
        assert("}"@ =~= seq!['}']);
        assert(r@ =~= seq!['{', '\n'] + spec_json_entries(ov, 0, ind1@) + ind@ + seq!['}']);
    }
    r
}

/// Renders the whole tree; the root is always an object node.
pub fn generate_json(tree: &Value) -> (r: Result<String, CodegenError>)
    requires
        tree is Object,
    ensures
        match r {
            Ok(s) => s@ == spec_json_value(
                crate::codegen::spec_value_view(*tree),
                Seq::<char>::empty(),
            ),
            Err(_) => false,
        },
{
    match tree {
        Value::Object(root) => {
            let s = format_object(root, "");
            proof {
                reveal_strlit("");
                assert(""@ =~= Seq::<char>::empty());
            }
            Ok(s)
        },
        Value::Id(_) => {
            proof {
                assert(false);
            }
            Err(CodegenError::TreeStructure)
        },
    }
}

} // verus!
