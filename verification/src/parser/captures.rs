//! What a query matched in a syntax tree, and the functions, types and
//! variables that are read from it.
//!
//! A match is the list of its captures: each the name it was captured under,
//! the text of the node, where that text could be read, and the node's
//! child `argument`.

use crate::memory::types::{lemma_texts_push, texts};
use crate::parser::specs::{
    normalize_variable_value, normalized_value, use_models, UseModel, UseNode,
};
use crate::parser::types::{opt_text, Function, Type, Variable};
use crate::text::{chars_of, push_chars, same_text, string_of, trim, trimmed};
use vstd::prelude::*;

verus! {

pub struct Capture {
    pub name: String,
    pub text: Option<String>,
    /// The child `argument` of the node, if it has one.
    pub argument: Vec<UseNode>,
}

/// A capture as specifications speak of it.
pub struct CaptureModel {
    pub name: Seq<char>,
    pub text: Option<Seq<char>>,
    pub argument: Seq<UseModel>,
}

impl View for Capture {
    type V = CaptureModel;

    open spec fn view(&self) -> CaptureModel {
        CaptureModel {
            name: self.name@,
            text: opt_text(self.text),
            argument: use_models(self.argument@),
        }
    }
}

/// The captures that the captures stand for.
pub open spec fn capture_models(caps: Seq<Capture>) -> Seq<CaptureModel> {
    Seq::new(caps.len(), |i: int| caps[i]@)
}

/// The first capture of a name.
pub open spec fn captured(caps: Seq<CaptureModel>, name: Seq<char>) -> Option<CaptureModel>
    decreases caps.len(),
{
    if caps.len() == 0 {
        None
    } else if caps[0].name == name {
        Some(caps[0])
    } else {
        captured(caps.skip(1), name)
    }
}

/// The text of a capture as it counts: trimmed, and not empty.
pub open spec fn kept_text(text: Option<Seq<char>>) -> Option<Seq<char>> {
    match text {
        Some(t) => if trimmed(t).len() > 0 {
            Some(trimmed(t))
        } else {
            None
        },
        None => None,
    }
}

/// The text of the first capture of a name, if it counts.
pub open spec fn capture_text(caps: Seq<CaptureModel>, name: Seq<char>) -> Option<Seq<char>> {
    match captured(caps, name) {
        Some(c) => kept_text(c.text),
        None => None,
    }
}

/// The texts of all captures of a name that count.
pub open spec fn capture_texts(caps: Seq<CaptureModel>, name: Seq<char>) -> Seq<Seq<char>>
    decreases caps.len(),
{
    if caps.len() == 0 {
        Seq::empty()
    } else {
        let init = capture_texts(caps.drop_last(), name);
        let c = caps.last();
        if c.name == name && kept_text(c.text) is Some {
            init.push(kept_text(c.text).unwrap())
        } else {
            init
        }
    }
}

/// The first capture of a name.
pub fn cap_node<'a>(caps: &'a Vec<Capture>, name: &str) -> (r: Option<&'a Capture>)
    ensures
        match r {
            Some(c) => captured(capture_models(caps@), name@) == Some(c@),
            None => captured(capture_models(caps@), name@) is None,
        },
{
    let ghost all = capture_models(caps@);
    let mut i: usize = 0;
    assert(all.skip(0) =~= all);
    while i < caps.len()
        invariant
            i <= caps.len(),
            all == capture_models(caps@),
            captured(all, name@) == captured(all.skip(i as int), name@),
        decreases caps.len() - i,
    {
        assert(all.skip(i as int)[0] == caps@[i as int]@);
        assert(all.skip(i as int).skip(1) =~= all.skip(i + 1));
        if same_text(caps[i].name.as_str(), name) {
            return Some(&caps[i]);
        }
        i += 1;
    }
    None
}

fn keep_text(text: &Option<String>) -> (r: Option<String>)
    ensures
        opt_text(r) == kept_text(opt_text(*text)),
{
    match text {
        Some(t) => {
            let chars = chars_of(t.as_str());
            let body = trim(chars.as_slice());
            if body.len() > 0 {
                Some(string_of(body))
            } else {
                None
            }
        },
        None => None,
    }
}

/// Whether a name was captured at all.
pub fn has_capture(caps: &Vec<Capture>, name: &str) -> (r: bool)
    ensures
        r == (captured(capture_models(caps@), name@) is Some),
{
    cap_node(caps, name).is_some()
}

pub fn cap_text(caps: &Vec<Capture>, name: &str) -> (r: Option<String>)
    ensures
        opt_text(r) == capture_text(capture_models(caps@), name@),
{
    match cap_node(caps, name) {
        Some(c) => keep_text(&c.text),
        None => None,
    }
}

pub fn cap_texts(caps: &Vec<Capture>, name: &str) -> (r: Vec<String>)
    ensures
        texts(r@) == capture_texts(capture_models(caps@), name@),
{
    let ghost all = capture_models(caps@);
    let mut out: Vec<String> = Vec::new();
    let mut i: usize = 0;
    assert(all.take(0) =~= Seq::<CaptureModel>::empty());
    assert(texts(out@) =~= Seq::<Seq<char>>::empty());
    while i < caps.len()
        invariant
            i <= caps.len(),
            all == capture_models(caps@),
            texts(out@) == capture_texts(all.take(i as int), name@),
        decreases caps.len() - i,
    {
        proof {
            assert(all.take(i + 1).drop_last() =~= all.take(i as int));
            assert(all.take(i + 1).last() == caps@[i as int]@);
        }
        if same_text(caps[i].name.as_str(), name) {
            match keep_text(&caps[i].text) {
                Some(t) => {
                    proof {
                        lemma_texts_push(out@, t);
                    }
                    out.push(t);
                },
                None => {},
            }
        }
        i += 1;
    }
    assert(all.take(caps.len() as int) =~= all);
    out
}

// ---------------------------------------------------------------------------
// Fields
// ---------------------------------------------------------------------------

/// The field at index `i`, written from the names, types and visibilities
/// that were captured side by side. A field without a name is `_`.
pub open spec fn field_string(
    names: Seq<Seq<char>>,
    types: Seq<Seq<char>>,
    vis: Seq<Seq<char>>,
    i: int,
) -> Seq<char> {
    let n = if i < names.len() {
        names[i]
    } else {
        "_"@
    };
    let shown = i < vis.len() && trimmed(vis[i]).len() > 0;
    let head = if shown {
        trimmed(vis[i]) + " "@ + n
    } else {
        n
    };
    if i < types.len() {
        head + ": "@ + types[i]
    } else {
        head
    }
}

pub open spec fn field_strings(
    names: Seq<Seq<char>>,
    types: Seq<Seq<char>>,
    vis: Seq<Seq<char>>,
) -> Seq<Seq<char>> {
    let len = if names.len() >= types.len() {
        names.len()
    } else {
        types.len()
    };
    Seq::new(len, |i: int| field_string(names, types, vis, i))
}

fn field_text(names: &Vec<String>, types: &Vec<String>, vis: &Vec<String>, i: usize) -> (r: String)
    ensures
        r@ == field_string(texts(names@), texts(types@), texts(vis@), i as int),
{
    let mut out: Vec<char> = Vec::new();
    if i < vis.len() {
        let v = chars_of(vis[i].as_str());
        let shown = trim(v.as_slice());
        if shown.len() > 0 {
            push_chars(&mut out, shown);
            push_chars(&mut out, chars_of(" ").as_slice());
        }
    }
    if i < names.len() {
        push_chars(&mut out, chars_of(names[i].as_str()).as_slice());
    } else {
        push_chars(&mut out, chars_of("_").as_slice());
    }
    if i < types.len() {
        push_chars(&mut out, chars_of(": ").as_slice());
        push_chars(&mut out, chars_of(types[i].as_str()).as_slice());
    }
    proof {
        let e = Seq::<char>::empty();
        let n = if i < names.len() {
            names@[i as int]@
        } else {
            "_"@
        };
        assert(e + n =~= n);
        if i < vis.len() {
            assert(e + trimmed(vis@[i as int]@) + " "@ + n =~= trimmed(vis@[i as int]@) + " "@
                + n);
        }
    }
    string_of(out.as_slice())
}

/// The fields of a type, from the names `field_name`, `field_type` and
/// `field_vis` of a match.
pub fn build_field_strings(caps: &Vec<Capture>) -> (r: Vec<String>)
    ensures
        texts(r@) == field_strings(
            capture_texts(capture_models(caps@), "field_name"@),
            capture_texts(capture_models(caps@), "field_type"@),
            capture_texts(capture_models(caps@), "field_vis"@),
        ),
{
    let names = cap_texts(caps, "field_name");
    let types = cap_texts(caps, "field_type");
    let vis = cap_texts(caps, "field_vis");
    let len: usize = if names.len() >= types.len() {
        names.len()
    } else {
        types.len()
    };
    let mut out: Vec<String> = Vec::new();
    let mut i: usize = 0;
    while i < len
        invariant
            i <= len,
            len == if names.len() >= types.len() {
                names.len()
            } else {
                types.len()
            },
            texts(out@).len() == i,
            forall|k: int|
                0 <= k < i ==> texts(out@)[k] == field_string(
                    texts(names@),
                    texts(types@),
                    texts(vis@),
                    k,
                ),
        decreases len - i,
    {
        let f = field_text(&names, &types, &vis, i);
        proof {
            lemma_texts_push(out@, f);
        }
        out.push(f);
        i += 1;
    }
    assert(texts(out@) =~= field_strings(texts(names@), texts(types@), texts(vis@)));
    out
}

// ---------------------------------------------------------------------------
// Functions, variables and types
// ---------------------------------------------------------------------------

pub struct FunctionModel {
    pub name: Seq<char>,
    pub params_text: Seq<char>,
    pub return_type: Option<Seq<char>>,
    pub visibility: Option<Seq<char>>,
    pub owner: Option<Seq<char>>,
}

impl View for Function {
    type V = FunctionModel;

    open spec fn view(&self) -> FunctionModel {
        FunctionModel {
            name: self.name@,
            params_text: self.params_text@,
            return_type: opt_text(self.return_type),
            visibility: opt_text(self.visibility),
            owner: opt_text(self.owner),
        }
    }
}

pub struct VariableModel {
    pub name: Seq<char>,
    pub type_text: Option<Seq<char>>,
    pub value: Option<Seq<char>>,
    pub visibility: Option<Seq<char>>,
    pub is_mut: bool,
    pub is_const: bool,
    pub is_static: bool,
}

impl View for Variable {
    type V = VariableModel;

    open spec fn view(&self) -> VariableModel {
        VariableModel {
            name: self.name@,
            type_text: opt_text(self.type_text),
            value: opt_text(self.value),
            visibility: opt_text(self.visibility),
            is_mut: self.is_mut,
            is_const: self.is_const,
            is_static: self.is_static,
        }
    }
}

pub struct TypeModel {
    pub name: Seq<char>,
    pub kind: Option<Seq<char>>,
    pub visibility: Option<Seq<char>>,
    pub fields: Seq<Seq<char>>,
}

impl View for Type {
    type V = TypeModel;

    open spec fn view(&self) -> TypeModel {
        TypeModel {
            name: self.name@,
            kind: opt_text(self.kind),
            visibility: opt_text(self.visibility),
            fields: texts(self.fields@),
        }
    }
}

/// The function a match stands for: none without a name. A return type
/// `()` is no return type.
pub open spec fn function_in(caps: Seq<CaptureModel>) -> Option<FunctionModel> {
    match capture_text(caps, "name"@) {
        Some(name) => Some(
            FunctionModel {
                name,
                params_text: match capture_text(caps, "params"@) {
                    Some(p) => p,
                    None => Seq::empty(),
                },
                return_type: match capture_text(caps, "ret"@) {
                    Some(r) => if r == "()"@ {
                        None
                    } else {
                        Some(r)
                    },
                    None => None,
                },
                visibility: capture_text(caps, "vis"@),
                owner: capture_text(caps, "impl_target"@),
            },
        ),
        None => None,
    }
}

pub fn function_of(caps: &Vec<Capture>) -> (r: Option<Function>)
    ensures
        match r {
            Some(f) => function_in(capture_models(caps@)) == Some(f@),
            None => function_in(capture_models(caps@)) is None,
        },
{
    match cap_text(caps, "name") {
        Some(name) => {
            let params_text = match cap_text(caps, "params") {
                Some(p) => p,
                None => String::new(),
            };
            let return_type = match cap_text(caps, "ret") {
                Some(r) => if same_text(r.as_str(), "()") {
                    None
                } else {
                    Some(r)
                },
                None => None,
            };
            Some(
                Function {
                    name,
                    params_text,
                    return_type,
                    visibility: cap_text(caps, "vis"),
                    owner: cap_text(caps, "impl_target"),
                },
            )
        },
        None => None,
    }
}

/// The variable a match stands for: none without a name.
pub open spec fn variable_in(caps: Seq<CaptureModel>) -> Option<VariableModel> {
    match capture_text(caps, "name"@) {
        Some(name) => Some(
            VariableModel {
                name,
                type_text: capture_text(caps, "type"@),
                value: match capture_text(caps, "value"@) {
                    Some(v) => Some(normalized_value(v)),
                    None => None,
                },
                visibility: capture_text(caps, "vis"@),
                is_mut: captured(caps, "mut"@) is Some,
                is_const: captured(caps, "const_keyword"@) is Some,
                is_static: captured(caps, "static_keyword"@) is Some,
            },
        ),
        None => None,
    }
}

pub fn variable_of(caps: &Vec<Capture>) -> (r: Option<Variable>)
    ensures
        match r {
            Some(v) => variable_in(capture_models(caps@)) == Some(v@),
            None => variable_in(capture_models(caps@)) is None,
        },
{
    match cap_text(caps, "name") {
        Some(name) => Some(
            Variable {
                name,
                type_text: cap_text(caps, "type"),
                value: normalize_variable_value(cap_text(caps, "value")),
                visibility: cap_text(caps, "vis"),
                is_mut: has_capture(caps, "mut"),
                is_const: has_capture(caps, "const_keyword"),
                is_static: has_capture(caps, "static_keyword"),
            },
        ),
        None => None,
    }
}

/// The part of a type that one match shows: none without a name.
pub open spec fn type_in(caps: Seq<CaptureModel>) -> Option<TypeModel> {
    match capture_text(caps, "name"@) {
        Some(name) => Some(
            TypeModel {
                name,
                kind: capture_text(caps, "kind"@),
                visibility: capture_text(caps, "vis"@),
                fields: field_strings(
                    capture_texts(caps, "field_name"@),
                    capture_texts(caps, "field_type"@),
                    capture_texts(caps, "field_vis"@),
                ),
            },
        ),
        None => None,
    }
}

pub fn type_of(caps: &Vec<Capture>) -> (r: Option<Type>)
    ensures
        match r {
            Some(t) => type_in(capture_models(caps@)) == Some(t@),
            None => type_in(capture_models(caps@)) is None,
        },
{
    match cap_text(caps, "name") {
        Some(name) => Some(
            Type {
                name,
                kind: cap_text(caps, "kind"),
                visibility: cap_text(caps, "vis"),
                fields: build_field_strings(caps),
            },
        ),
        None => None,
    }
}

} // verus!
