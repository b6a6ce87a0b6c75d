//! Reading the `use` declarations of Rust, and what else is special to it.
//!
//! A syntax tree comes from a parser outside; what this module reads of one
//! of its nodes is held in a `UseNode`.

use crate::error::{concat, glued};
use crate::parser::types::{join_path, joined_segments, opt_text, ExtractKind, Import};
use crate::project_manager::joined_path;
use crate::text::{
    chars_of, contains, is_white_space, occurs, string_of, trim, trimmed, white_space,
};
use vstd::prelude::*;

verus! {

/// A node of the tree of a `use` declaration: its kind, its text, the texts
/// of its children `path`, `name` and `alias` where it has them, its child
/// `list` if it has one, and its named children.
pub struct UseNode {
    pub kind: String,
    pub text: String,
    pub path: Option<String>,
    pub name: Option<String>,
    pub alias: Option<String>,
    pub list: Vec<UseNode>,
    pub children: Vec<UseNode>,
}

/// A node as specifications speak of it.
pub struct UseModel {
    pub kind: Seq<char>,
    pub text: Seq<char>,
    pub path: Option<Seq<char>>,
    pub name: Option<Seq<char>>,
    pub alias: Option<Seq<char>>,
    pub list: Seq<UseModel>,
    pub children: Seq<UseModel>,
}

/// A node of no kind, with nothing below it.
pub open spec fn no_node() -> UseModel {
    UseModel {
        kind: Seq::empty(),
        text: Seq::empty(),
        path: None,
        name: None,
        alias: None,
        list: Seq::empty(),
        children: Seq::empty(),
    }
}

impl UseNode {
    /// The node that this node stands for.
    pub open spec fn model(&self) -> UseModel
        decreases self,
    {
        UseModel {
            kind: self.kind@,
            text: self.text@,
            path: opt_text(self.path),
            name: opt_text(self.name),
            alias: opt_text(self.alias),
            list: Seq::new(
                self.list@.len(),
                |i: int|
                    if 0 <= i < self.list@.len() {
                        self.list@[i].model()
                    } else {
                        no_node()
                    },
            ),
            children: Seq::new(
                self.children@.len(),
                |i: int|
                    if 0 <= i < self.children@.len() {
                        self.children@[i].model()
                    } else {
                        no_node()
                    },
            ),
        }
    }

    /// What stands below the model of a node are the models of what
    /// stands below the node.
    pub proof fn lemma_model(&self)
        ensures
            self.model().list == use_models(self.list@),
            self.model().children == use_models(self.children@),
    {
        assert(self.model().list =~= use_models(self.list@));
        assert(self.model().children =~= use_models(self.children@));
    }
}

/// The nodes that the nodes stand for.
pub open spec fn use_models(nodes: Seq<UseNode>) -> Seq<UseModel> {
    Seq::new(nodes.len(), |i: int| nodes[i].model())
}

/// An import as specifications speak of it.
pub struct ImportModel {
    pub path: Seq<char>,
    pub name: Seq<char>,
    pub alias: Option<Seq<char>>,
    pub is_wildcard: bool,
}

impl View for Import {
    type V = ImportModel;

    open spec fn view(&self) -> ImportModel {
        ImportModel {
            path: self.path@,
            name: self.name@,
            alias: match self.alias {
                Some(a) => Some(a@),
                None => None,
            },
            is_wildcard: self.is_wildcard,
        }
    }
}

pub open spec fn import_models(v: Seq<Import>) -> Seq<ImportModel> {
    Seq::new(v.len(), |i: int| v[i]@)
}

/// The text of a child, trimmed; empty if there is none.
pub open spec fn child_text(child: Option<Seq<char>>) -> Seq<char> {
    match child {
        Some(text) => trimmed(text),
        None => Seq::empty(),
    }
}

/// The imports that a node and what lies below it stand for, after `out`.
pub open spec fn use_imports(node: UseModel, prefix: Seq<char>, out: Seq<ImportModel>) -> Seq<
    ImportModel,
>
    decreases node, 0nat,
{
    let text = trimmed(node.text);
    if node.kind == "identifier"@ {
        if text.len() > 0 {
            out.push(ImportModel { path: prefix, name: text, alias: None, is_wildcard: false })
        } else {
            out
        }
    } else if node.kind == "self"@ {
        out.push(ImportModel { path: prefix, name: "self"@, alias: None, is_wildcard: false })
    } else if node.kind == "scoped_identifier"@ {
        if node.path is Some && node.name is Some && child_text(node.name).len() > 0 {
            out.push(
                ImportModel {
                    path: joined_segments(prefix, child_text(node.path)),
                    name: child_text(node.name),
                    alias: None,
                    is_wildcard: false,
                },
            )
        } else {
            out
        }
    } else if node.kind == "scoped_use_list"@ {
        if node.path is Some {
            use_imports_of(node.list, joined_segments(prefix, child_text(node.path)), out, 0)
        } else {
            out
        }
    } else if node.kind == "use_list"@ {
        use_imports_of(node.children, prefix, out, 0)
    } else if node.kind == "use_as_clause"@ {
        if node.path is Some && node.alias is Some && child_text(node.alias).len() > 0 {
            out.push(
                ImportModel {
                    path: joined_segments(prefix, child_text(node.path)),
                    name: child_text(node.alias),
                    alias: Some(child_text(node.alias)),
                    is_wildcard: false,
                },
            )
        } else {
            out
        }
    } else if node.kind == "use_wildcard"@ {
        out.push(
            ImportModel {
                path: joined_segments(prefix, child_text(node.path)),
                name: "*"@,
                alias: None,
                is_wildcard: true,
            },
        )
    } else {
        out
    }
}

/// The imports of the nodes from index `from` on, one after another.
pub open spec fn use_imports_of(
    nodes: Seq<UseModel>,
    prefix: Seq<char>,
    out: Seq<ImportModel>,
    from: nat,
) -> Seq<ImportModel>
    decreases nodes, nodes.len() - from,
{
    if from >= nodes.len() {
        out
    } else {
        use_imports_of(nodes, prefix, use_imports(nodes[from as int], prefix, out), from + 1)
    }
}

fn trimmed_text(text: &str) -> (r: String)
    ensures
        r@ == trimmed(text@),
{
    string_of(trim(chars_of(text).as_slice()))
}

fn text_of_child(child: &Option<String>) -> (r: String)
    ensures
        r@ == child_text(opt_text(*child)),
{
    match child {
        Some(text) => trimmed_text(text.as_str()),
        None => String::new(),
    }
}

fn is_kind(node: &UseNode, kind: &str) -> (r: bool)
    ensures
        r == (node.model().kind == kind@),
{
    crate::text::same_text(node.kind.as_str(), kind)
}

fn push_import(out: &mut Vec<Import>, import: Import)
    ensures
        import_models(final(out)@) == import_models(old(out)@).push(import@),
{
    out.push(import);
    assert(import_models(out@) =~= import_models(old(out)@).push(import@));
}

/// Appends the imports that a node and what lies below it stand for.
#[verifier::loop_isolation(false)]
pub fn collect_use_imports(node: &UseNode, prefix: &str, out: &mut Vec<Import>)
    ensures
        import_models(final(out)@) == use_imports(node.model(), prefix@, import_models(old(out)@)),
    decreases node,
{
    proof {
        node.lemma_model();
    }
    if is_kind(node, "identifier") {
        let name = trimmed_text(node.text.as_str());
        if chars_of(name.as_str()).len() > 0 {
            push_import(
                out,
                Import {
                    path: string_of(chars_of(prefix).as_slice()),
                    name,
                    alias: None,
                    is_wildcard: false,
                },
            );
        }
    } else if is_kind(node, "self") {
        push_import(
            out,
            Import {
                path: string_of(chars_of(prefix).as_slice()),
                name: string_of(chars_of("self").as_slice()),
                alias: None,
                is_wildcard: false,
            },
        );
    } else if is_kind(node, "scoped_identifier") {
        if node.path.is_some() && node.name.is_some() {
            let name = text_of_child(&node.name);
            if chars_of(name.as_str()).len() > 0 {
                let path = join_path(prefix, text_of_child(&node.path).as_str());
                push_import(out, Import { path, name, alias: None, is_wildcard: false });
            }
        }
    } else if is_kind(node, "scoped_use_list") {
        if node.path.is_some() {
            let new_prefix = join_path(prefix, text_of_child(&node.path).as_str());
            let ghost first = import_models(out@);
            let mut i: usize = 0;
            while i < node.list.len()
                invariant
                    i <= node.list.len(),
                    use_imports_of(use_models(node.list@), new_prefix@, first, 0)
                        == use_imports_of(
                        use_models(node.list@),
                        new_prefix@,
                        import_models(out@),
                        i as nat,
                    ),
                decreases node.list.len() - i,
            {
                proof {
                    vstd::std_specs::vec::axiom_vec_index_decreases(node.list, i as int);
                    assert(decreases_to!(node.list => node.list[i as int]));
                    assert(decreases_to!(*node => node.list));
                    assert(use_models(node.list@)[i as int] == node.list@[i as int].model());
                }
                collect_use_imports(&node.list[i], new_prefix.as_str(), out);
                i += 1;
            }
        }
    } else if is_kind(node, "use_list") {
        let ghost first = import_models(out@);
        let mut i: usize = 0;
        while i < node.children.len()
            invariant
                i <= node.children.len(),
                use_imports_of(use_models(node.children@), prefix@, first, 0) == use_imports_of(
                    use_models(node.children@),
                    prefix@,
                    import_models(out@),
                    i as nat,
                ),
            decreases node.children.len() - i,
        {
            proof {
                vstd::std_specs::vec::axiom_vec_index_decreases(node.children, i as int);
                assert(decreases_to!(node.children => node.children[i as int]));
                assert(decreases_to!(*node => node.children));
                assert(use_models(node.children@)[i as int] == node.children@[i as int].model());
            }
            collect_use_imports(&node.children[i], prefix, out);
            i += 1;
        }
    } else if is_kind(node, "use_as_clause") {
        if node.path.is_some() && node.alias.is_some() {
            let alias = text_of_child(&node.alias);
            if chars_of(alias.as_str()).len() > 0 {
                let path = join_path(prefix, text_of_child(&node.path).as_str());
                push_import(
                    out,
                    Import { path, name: alias.clone(), alias: Some(alias), is_wildcard: false },
                );
            }
        }
    } else if is_kind(node, "use_wildcard") {
        let path = join_path(prefix, text_of_child(&node.path).as_str());
        push_import(
            out,
            Import {
                path,
                name: string_of(chars_of("*").as_slice()),
                alias: None,
                is_wildcard: true,
            },
        );
    }
}

// ---------------------------------------------------------------------------
// Values of variables
// ---------------------------------------------------------------------------

/// A text without its white space.
pub open spec fn without_white_space(s: Seq<char>) -> Seq<char>
    decreases s.len(),
{
    if s.len() == 0 {
        s
    } else if is_white_space(s.last()) {
        without_white_space(s.drop_last())
    } else {
        without_white_space(s.drop_last()).push(s.last())
    }
}

/// The value of a variable as it is kept: without white space, unless it
/// reads children of a node or indexes `names`.
pub open spec fn normalized_value(value: Seq<char>) -> Seq<char> {
    if occurs(value, "node.named_child"@) || occurs(value, "names["@) {
        value
    } else {
        without_white_space(value)
    }
}

pub fn normalize_variable_value(value: Option<String>) -> (r: Option<String>)
    ensures
        match value {
            Some(v) => r matches Some(n) && n@ == normalized_value(v@),
            None => r is None,
        },
{
    match value {
        Some(v) => {
            let chars = chars_of(v.as_str());
            if contains(chars.as_slice(), chars_of("node.named_child").as_slice()) || contains(
                chars.as_slice(),
                chars_of("names[").as_slice(),
            ) {
                Some(v)
            } else {
                let mut out: Vec<char> = Vec::new();
                let mut i: usize = 0;
                assert(chars@.take(0) =~= Seq::<char>::empty());
                while i < chars.len()
                    invariant
                        i <= chars.len(),
                        out@ == without_white_space(chars@.take(i as int)),
                    decreases chars.len() - i,
                {
                    proof {
                        assert(chars@.take(i + 1).drop_last() =~= chars@.take(i as int));
                        assert(chars@.take(i + 1).last() == chars@[i as int]);
                    }
                    if !white_space(chars[i]) {
                        out.push(chars[i]);
                    }
                    i += 1;
                }
                assert(chars@.take(chars.len() as int) =~= chars@);
                Some(string_of(out.as_slice()))
            }
        },
        None => None,
    }
}

// ---------------------------------------------------------------------------
// Where the queries are kept
// ---------------------------------------------------------------------------

/// The name under which the queries for Rust are kept.
pub const RUST_ID: &'static str = "rust";

/// The directory of all queries.
pub const QUERY_ROOT: &'static str = "querys";

/// The file of the query of a language for a kind.
pub open spec fn query_file(id: Seq<char>, kind: ExtractKind) -> Seq<char> {
    joined_path(joined_path(QUERY_ROOT@, id), kind.name() + ".scm"@)
}

pub fn query_path(id: &str, kind: ExtractKind) -> (r: String)
    ensures
        r@ == query_file(id@, kind),
{
    proof {
        reveal_with_fuel(glued, 3);
    }
    let parts: Vec<&str> = vec![kind.as_str(), ".scm"];
    let file = concat(&parts);
    assert(file@ =~= kind.name() + ".scm"@);
    let dir = crate::project_manager::join_path(QUERY_ROOT, id);
    crate::project_manager::join_path(dir.as_str(), file.as_str())
}

// ---------------------------------------------------------------------------
// Languages
// ---------------------------------------------------------------------------

/// What is special to a language whose sources are searched with queries.
pub trait LanguageSpec {
    /// The name under which the queries of the language are kept.
    spec fn name(&self) -> Seq<char>;

    /// The kinds of things that can be found in the language.
    spec fn kinds(&self) -> Seq<ExtractKind>;

    /// The value of a variable as it is kept.
    spec fn kept_value(&self, value: Seq<char>) -> Seq<char>;

    fn id(&self) -> (r: &'static str)
        ensures
            r@ == self.name(),
    ;

    fn supported_extract_kinds(&self) -> (r: Vec<ExtractKind>)
        ensures
            r@ == self.kinds(),
    ;

    fn supports_kind(&self, kind: ExtractKind) -> (r: bool)
        ensures
            r == self.kinds().contains(kind),
    ;

    fn query_path(&self, kind: ExtractKind) -> (r: String)
        ensures
            r@ == query_file(self.name(), kind),
    ;

    fn normalize_variable_value(&self, value: Option<String>) -> (r: Option<String>)
        ensures
            match value {
                Some(v) => r matches Some(n) && n@ == self.kept_value(v@),
                None => r is None,
            },
    ;
}

/// Rust.
pub struct RustSpec;

impl LanguageSpec for RustSpec {
    open spec fn name(&self) -> Seq<char> {
        RUST_ID@
    }

    open spec fn kinds(&self) -> Seq<ExtractKind> {
        seq![
            ExtractKind::Functions,
            ExtractKind::Imports,
            ExtractKind::Types,
            ExtractKind::Variables,
        ]
    }

    open spec fn kept_value(&self, value: Seq<char>) -> Seq<char> {
        normalized_value(value)
    }

    fn id(&self) -> (r: &'static str) {
        RUST_ID
    }

    fn supported_extract_kinds(&self) -> (r: Vec<ExtractKind>) {
        ExtractKind::all()
    }

    fn supports_kind(&self, kind: ExtractKind) -> (r: bool) {
        proof {
            let kinds = self.kinds();
            match kind {
                ExtractKind::Functions => assert(kinds[0] == kind),
                ExtractKind::Imports => assert(kinds[1] == kind),
                ExtractKind::Types => assert(kinds[2] == kind),
                ExtractKind::Variables => assert(kinds[3] == kind),
            }
        }
        true
    }

    fn query_path(&self, kind: ExtractKind) -> (r: String) {
        query_path(RUST_ID, kind)
    }

    fn normalize_variable_value(&self, value: Option<String>) -> (r: Option<String>) {
        normalize_variable_value(value)
    }
}

} // verus!
