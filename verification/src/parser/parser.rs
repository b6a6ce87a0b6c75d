//! From the matches of the queries to what is reported of a file.

use crate::memory::types::{copy_strings, lemma_texts_push, texts};
use crate::parser::captures::{
    cap_node, capture_models, captured, function_in, function_of, type_in, type_of,
    variable_in, variable_of, Capture, CaptureModel, FunctionModel, TypeModel, VariableModel,
};
use crate::error::{concat, glued};
use crate::parser::specs::{
    collect_use_imports, import_models, use_imports, use_models, ImportModel, LanguageSpec,
};
use crate::parser::tree::{match_models, query_result, run_query, ProblemModel, QueryProblem};
use crate::parser::types::{
    opt_text, ExtractKind, Function, Import, ParseResult, Type, Variable,
};
use crate::text::{chars_of, same_text, string_of};
use vstd::prelude::*;

verus! {

/// What has a name by which it is told apart from others of its kind.
pub trait Named {
    spec fn name_text(&self) -> Seq<char>;

    fn name(&self) -> (r: &str)
        ensures
            r@ == self.name_text(),
    ;
}

impl Named for Function {
    open spec fn name_text(&self) -> Seq<char> {
        self.name@
    }

    fn name(&self) -> (r: &str) {
        self.name.as_str()
    }
}

impl Named for Type {
    open spec fn name_text(&self) -> Seq<char> {
        self.name@
    }

    fn name(&self) -> (r: &str) {
        self.name.as_str()
    }
}

impl Named for Import {
    open spec fn name_text(&self) -> Seq<char> {
        self.name@
    }

    fn name(&self) -> (r: &str) {
        self.name.as_str()
    }
}

impl Named for Variable {
    open spec fn name_text(&self) -> Seq<char> {
        self.name@
    }

    fn name(&self) -> (r: &str) {
        self.name.as_str()
    }
}

/// Whether the name of the item at `i` stands at an index below `i` too.
pub open spec fn named_before<T: Named>(items: Seq<T>, i: int) -> bool {
    exists|j: int| 0 <= j < i && (#[trigger] items[j]).name_text() == items[i].name_text()
}

/// The items without those whose name an earlier item has.
pub open spec fn first_of_names<T: Named>(items: Seq<T>) -> Seq<T>
    decreases items.len(),
{
    if items.len() == 0 {
        items
    } else {
        let init = first_of_names(items.drop_last());
        if named_before(items, items.len() - 1) {
            init
        } else {
            init.push(items.last())
        }
    }
}

/// What `first_of_names` keeps of the first `i` items: each is one of them,
/// and each of them has its name among the kept.
proof fn lemma_first_of_names<T: Named>(items: Seq<T>, i: int)
    requires
        0 <= i <= items.len(),
    ensures
        forall|k: int|
            0 <= k < first_of_names(items.take(i)).len() ==> exists|j: int|
                0 <= j < i && items[j] == #[trigger] first_of_names(items.take(i))[k],
        forall|j: int|
            0 <= j < i ==> exists|k: int|
                0 <= k < first_of_names(items.take(i)).len() && (#[trigger] first_of_names(
                    items.take(i),
                )[k]).name_text() == (#[trigger] items[j]).name_text(),
    decreases i,
{
    if i > 0 {
        lemma_first_of_names(items, i - 1);
        let now = items.take(i);
        let before = items.take(i - 1);
        assert(now.drop_last() =~= before);
        assert(now.last() == items[i - 1]);
        let kept = first_of_names(now);
        let init = first_of_names(before);
        assert forall|k: int| 0 <= k < kept.len() implies exists|j: int|
            0 <= j < i && items[j] == #[trigger] kept[k] by {
            if k < init.len() {
                assert(kept[k] == init[k]);
                let j = choose|j: int| 0 <= j < i - 1 && items[j] == init[k];
                assert(items[j] == kept[k]);
            } else {
                assert(kept[k] == items[i - 1]);
            }
        }
        assert forall|j: int| 0 <= j < i implies exists|k: int|
            0 <= k < kept.len() && (#[trigger] kept[k]).name_text() == (
            #[trigger] items[j]).name_text() by {
            if j < i - 1 {
                let k = choose|k: int|
                    0 <= k < init.len() && (#[trigger] init[k]).name_text()
                        == items[j].name_text();
                assert(kept[k] == init[k]);
            } else if named_before(now, i - 1) {
                let j0 = choose|j0: int|
                    0 <= j0 < i - 1 && (#[trigger] now[j0]).name_text() == now[i
                        - 1].name_text();
                assert(now[j0] == items[j0]);
                let k = choose|k: int|
                    0 <= k < init.len() && (#[trigger] init[k]).name_text()
                        == items[j0].name_text();
                assert(kept[k] == init[k]);
            } else {
                assert(kept[kept.len() - 1] == items[i - 1]);
            }
        }
    } else {
        assert(items.take(0) =~= Seq::<T>::empty());
    }
}

fn holds_name<T: Named>(kept: &Vec<T>, name: &str) -> (r: bool)
    ensures
        r == exists|k: int| 0 <= k < kept.len() && (#[trigger] kept@[k]).name_text() == name@,
{
    let mut k: usize = 0;
    while k < kept.len()
        invariant
            k <= kept.len(),
            forall|j: int| 0 <= j < k ==> (#[trigger] kept@[j]).name_text() != name@,
        decreases kept.len() - k,
    {
        if same_text(kept[k].name(), name) {
            return true;
        }
        k += 1;
    }
    false
}

/// Drops each item whose name an earlier item has.
pub fn dedup_by_name<T: Named>(items: Vec<T>) -> (r: Vec<T>)
    ensures
        r@ == first_of_names(items@),
{
    let mut out: Vec<T> = Vec::new();
    let ghost all = items@;
    proof {
        assert(all.take(0) =~= Seq::<T>::empty());
    }
    for item in it: items
        invariant
            it.seq() == all,
            out@ == first_of_names(all.take(it.index() as int)),
    {
        let ghost i = it.index() as int;
        proof {
            lemma_first_of_names(all, i);
            let now = all.take(i + 1);
            assert(now.drop_last() =~= all.take(i));
            assert(now.last() == item);
            if named_before(now, i) {
                let j = choose|j: int|
                    0 <= j < i && (#[trigger] now[j]).name_text() == now[i].name_text();
                assert(now[j] == all[j]);
            }
            if exists|k: int|
                0 <= k < out@.len() && (#[trigger] out@[k]).name_text() == item.name_text() {
                let k = choose|k: int|
                    0 <= k < out@.len() && (#[trigger] out@[k]).name_text()
                        == item.name_text();
                let j = choose|j: int| 0 <= j < i && all[j] == out@[k];
                assert(now[j] == all[j]);
                assert(named_before(now, i));
            }
        }
        if !holds_name(&out, item.name()) {
            out.push(item);
        }
    }
    proof {
        assert(all.take(all.len() as int) =~= all);
    }
    out
}

// ---------------------------------------------------------------------------
// From matches to items
// ---------------------------------------------------------------------------

pub open spec fn function_models(v: Seq<Function>) -> Seq<FunctionModel> {
    Seq::new(v.len(), |i: int| v[i]@)
}

pub open spec fn variable_models(v: Seq<Variable>) -> Seq<VariableModel> {
    Seq::new(v.len(), |i: int| v[i]@)
}

pub open spec fn type_models(v: Seq<Type>) -> Seq<TypeModel> {
    Seq::new(v.len(), |i: int| v[i]@)
}

/// The functions of the matches that stand for one, in the order of the
/// matches.
pub open spec fn functions_in(matches: Seq<Seq<CaptureModel>>) -> Seq<FunctionModel>
    decreases matches.len(),
{
    if matches.len() == 0 {
        Seq::empty()
    } else {
        let init = functions_in(matches.drop_last());
        match function_in(matches.last()) {
            Some(f) => init.push(f),
            None => init,
        }
    }
}

pub fn extract_functions(matches: &Vec<Vec<Capture>>) -> (r: Vec<Function>)
    ensures
        function_models(r@) == functions_in(match_models(matches@)),
{
    let mut out: Vec<Function> = Vec::new();
    let mut i: usize = 0;
    assert(match_models(matches@).take(0) =~= Seq::<Seq<CaptureModel>>::empty());
    assert(function_models(out@) =~= Seq::<FunctionModel>::empty());
    while i < matches.len()
        invariant
            i <= matches.len(),
            function_models(out@) == functions_in(match_models(matches@).take(i as int)),
        decreases matches.len() - i,
    {
        proof {
            assert(match_models(matches@).take(i + 1).drop_last() =~= match_models(matches@).take(
                i as int,
            ));
            assert(match_models(matches@).take(i + 1).last() == capture_models(
                matches@[i as int]@,
            ));
        }
        match function_of(&matches[i]) {
            Some(f) => {
                assert(function_models(out@.push(f)) =~= function_models(out@).push(f@));
                out.push(f);
            },
            None => {},
        }
        i += 1;
    }
    assert(match_models(matches@).take(matches.len() as int) =~= match_models(matches@));
    out
}

/// The variables of the matches that stand for one, in the order of the
/// matches.
pub open spec fn variables_in(matches: Seq<Seq<CaptureModel>>) -> Seq<VariableModel>
    decreases matches.len(),
{
    if matches.len() == 0 {
        Seq::empty()
    } else {
        let init = variables_in(matches.drop_last());
        match variable_in(matches.last()) {
            Some(v) => init.push(v),
            None => init,
        }
    }
}

pub fn extract_variables(matches: &Vec<Vec<Capture>>) -> (r: Vec<Variable>)
    ensures
        variable_models(r@) == variables_in(match_models(matches@)),
{
    let mut out: Vec<Variable> = Vec::new();
    let mut i: usize = 0;
    assert(match_models(matches@).take(0) =~= Seq::<Seq<CaptureModel>>::empty());
    assert(variable_models(out@) =~= Seq::<VariableModel>::empty());
    while i < matches.len()
        invariant
            i <= matches.len(),
            variable_models(out@) == variables_in(match_models(matches@).take(i as int)),
        decreases matches.len() - i,
    {
        proof {
            assert(match_models(matches@).take(i + 1).drop_last() =~= match_models(matches@).take(
                i as int,
            ));
            assert(match_models(matches@).take(i + 1).last() == capture_models(
                matches@[i as int]@,
            ));
        }
        match variable_of(&matches[i]) {
            Some(v) => {
                assert(variable_models(out@.push(v)) =~= variable_models(out@).push(v@));
                out.push(v);
            },
            None => {},
        }
        i += 1;
    }
    assert(match_models(matches@).take(matches.len() as int) =~= match_models(matches@));
    out
}

/// The index of the first type of a name; the length where there is none.
pub open spec fn place_of(types: Seq<TypeModel>, name: Seq<char>) -> int
    decreases types.len(),
{
    if types.len() == 0 {
        0
    } else if types[0].name == name {
        0
    } else {
        1 + place_of(types.skip(1), name)
    }
}

/// A type with what another match showed of it: the fields of both, and
/// kind and visibility from the second only where the first has none.
pub open spec fn absorbed(t: TypeModel, part: TypeModel) -> TypeModel {
    TypeModel {
        name: t.name,
        kind: if t.kind is Some {
            t.kind
        } else {
            part.kind
        },
        visibility: if t.visibility is Some {
            t.visibility
        } else {
            part.visibility
        },
        fields: t.fields + part.fields,
    }
}

/// The types with one more part: it goes into the type of its name, or
/// stands last as a new type.
pub open spec fn with_part(types: Seq<TypeModel>, part: TypeModel) -> Seq<TypeModel> {
    let k = place_of(types, part.name);
    if 0 <= k < types.len() {
        types.update(k, absorbed(types[k], part))
    } else {
        types.push(part)
    }
}

/// The types that the matches show, each once, in the order in which their
/// names first came.
pub open spec fn types_in(matches: Seq<Seq<CaptureModel>>) -> Seq<TypeModel>
    decreases matches.len(),
{
    if matches.len() == 0 {
        Seq::empty()
    } else {
        let init = types_in(matches.drop_last());
        match type_in(matches.last()) {
            Some(part) => with_part(init, part),
            None => init,
        }
    }
}

fn find_type(types: &Vec<Type>, name: &str) -> (k: usize)
    ensures
        k == place_of(type_models(types@), name@),
        k <= types.len(),
{
    let ghost all = type_models(types@);
    let mut i: usize = 0;
    assert(all.skip(0) =~= all);
    while i < types.len()
        invariant
            i <= types.len(),
            all == type_models(types@),
            place_of(all, name@) == i + place_of(all.skip(i as int), name@),
        decreases types.len() - i,
    {
        assert(all.skip(i as int)[0] == types@[i as int]@);
        assert(all.skip(i as int).skip(1) =~= all.skip(i + 1));
        if same_text(types[i].name.as_str(), name) {
            return i;
        }
        i += 1;
    }
    assert(all.skip(types.len() as int).len() == 0);
    i
}

fn copy_opt(s: &Option<String>) -> (r: Option<String>)
    ensures
        opt_text(r) == opt_text(*s),
{
    match s {
        Some(t) => Some(t.clone()),
        None => None,
    }
}

fn absorb(t: &Type, part: Type) -> (r: Type)
    ensures
        r@ == absorbed(t@, part@),
{
    let mut fields = copy_strings(&t.fields);
    let mut i: usize = 0;
    while i < part.fields.len()
        invariant
            i <= part.fields.len(),
            texts(fields@) == texts(t.fields@) + texts(part.fields@).take(i as int),
        decreases part.fields.len() - i,
    {
        let f = part.fields[i].clone();
        proof {
            lemma_texts_push(fields@, f);
            assert(texts(part.fields@).take(i + 1) =~= texts(part.fields@).take(i as int).push(
                f@,
            ));
            assert(texts(t.fields@) + texts(part.fields@).take(i as int).push(f@) =~= (texts(
                t.fields@,
            ) + texts(part.fields@).take(i as int)).push(f@));
        }
        fields.push(f);
        i += 1;
    }
    assert(texts(part.fields@).take(part.fields.len() as int) =~= texts(part.fields@));
    Type {
        name: t.name.clone(),
        kind: if t.kind.is_some() {
            copy_opt(&t.kind)
        } else {
            part.kind
        },
        visibility: if t.visibility.is_some() {
            copy_opt(&t.visibility)
        } else {
            part.visibility
        },
        fields,
    }
}

pub fn extract_types(matches: &Vec<Vec<Capture>>) -> (r: Vec<Type>)
    ensures
        type_models(r@) == types_in(match_models(matches@)),
{
    let mut out: Vec<Type> = Vec::new();
    let mut i: usize = 0;
    assert(match_models(matches@).take(0) =~= Seq::<Seq<CaptureModel>>::empty());
    assert(type_models(out@) =~= Seq::<TypeModel>::empty());
    while i < matches.len()
        invariant
            i <= matches.len(),
            type_models(out@) == types_in(match_models(matches@).take(i as int)),
        decreases matches.len() - i,
    {
        proof {
            assert(match_models(matches@).take(i + 1).drop_last() =~= match_models(matches@).take(
                i as int,
            ));
            assert(match_models(matches@).take(i + 1).last() == capture_models(
                matches@[i as int]@,
            ));
        }
        match type_of(&matches[i]) {
            Some(part) => {
                let k = find_type(&out, part.name.as_str());
                let ghost before = out@;
                if k < out.len() {
                    let merged = absorb(&out[k], part);
                    out.set(k, merged);
                    assert(type_models(out@) =~= type_models(before).update(
                        k as int,
                        merged@,
                    ));
                } else {
                    out.push(part);
                    assert(type_models(out@) =~= type_models(before).push(part@));
                }
            },
            None => {},
        }
        i += 1;
    }
    assert(match_models(matches@).take(matches.len() as int) =~= match_models(matches@));
    out
}

// ---------------------------------------------------------------------------
// Imports
// ---------------------------------------------------------------------------

/// The imports that one match shows: those of the `argument` of what was
/// captured as `root`.
pub open spec fn imports_of_match(caps: Seq<CaptureModel>, out: Seq<ImportModel>) -> Seq<ImportModel> {
    match captured(caps, "root"@) {
        Some(root) => if root.argument.len() > 0 {
            use_imports(root.argument[0], Seq::empty(), out)
        } else {
            out
        },
        None => out,
    }
}

/// The imports of all matches, in the order of the matches.
pub open spec fn imports_in(matches: Seq<Seq<CaptureModel>>) -> Seq<ImportModel>
    decreases matches.len(),
{
    if matches.len() == 0 {
        Seq::empty()
    } else {
        imports_of_match(matches.last(), imports_in(matches.drop_last()))
    }
}

pub fn extract_imports(matches: &Vec<Vec<Capture>>) -> (r: Vec<Import>)
    ensures
        import_models(r@) == imports_in(match_models(matches@)),
{
    let mut out: Vec<Import> = Vec::new();
    let mut i: usize = 0;
    assert(match_models(matches@).take(0) =~= Seq::<Seq<CaptureModel>>::empty());
    assert(import_models(out@) =~= Seq::<ImportModel>::empty());
    while i < matches.len()
        invariant
            i <= matches.len(),
            import_models(out@) == imports_in(match_models(matches@).take(i as int)),
        decreases matches.len() - i,
    {
        proof {
            assert(match_models(matches@).take(i + 1).drop_last() =~= match_models(matches@).take(
                i as int,
            ));
            assert(match_models(matches@).take(i + 1).last() == capture_models(
                matches@[i as int]@,
            ));
            reveal_strlit("");
            assert(""@ =~= Seq::<char>::empty());
        }
        match cap_node(&matches[i], "root") {
            Some(root) => {
                if root.argument.len() > 0 {
                    collect_use_imports(&root.argument[0], "", &mut out);
                }
            },
            None => {},
        }
        i += 1;
    }
    assert(match_models(matches@).take(matches.len() as int) =~= match_models(matches@));
    out
}

// ---------------------------------------------------------------------------
// The result as specifications speak of it
// ---------------------------------------------------------------------------

/// The items without those whose name an earlier item has, where `name`
/// gives the name of an item.
pub open spec fn first_names<M>(items: Seq<M>, name: spec_fn(M) -> Seq<char>) -> Seq<M>
    decreases items.len(),
{
    if items.len() == 0 {
        items
    } else {
        let init = first_names(items.drop_last(), name);
        if exists|j: int| 0 <= j < items.len() - 1 && name(#[trigger] items[j]) == name(items.last()) {
            init
        } else {
            init.push(items.last())
        }
    }
}

pub open spec fn function_name() -> spec_fn(FunctionModel) -> Seq<char> {
    |m: FunctionModel| m.name
}

pub open spec fn type_name_of() -> spec_fn(TypeModel) -> Seq<char> {
    |m: TypeModel| m.name
}

pub open spec fn import_name() -> spec_fn(ImportModel) -> Seq<char> {
    |m: ImportModel| m.name
}

pub open spec fn variable_name() -> spec_fn(VariableModel) -> Seq<char> {
    |m: VariableModel| m.name
}

/// Dropping repeated names and taking views can be done in either order.
proof fn lemma_first_names<T: Named, M>(
    items: Seq<T>,
    view: spec_fn(T) -> M,
    name: spec_fn(M) -> Seq<char>,
)
    requires
        forall|t: T| #[trigger] name(view(t)) == t.name_text(),
    ensures
        first_of_names(items).map_values(view) == first_names(items.map_values(view), name),
    decreases items.len(),
{
    let ms = items.map_values(view);
    if items.len() > 0 {
        lemma_first_names(items.drop_last(), view, name);
        let n = items.len() - 1;
        assert(ms.drop_last() =~= items.drop_last().map_values(view));
        assert(ms.last() == view(items.last()));
        if named_before(items, n) {
            let j = choose|j: int|
                0 <= j < n && (#[trigger] items[j]).name_text() == items[n].name_text();
            assert(name(ms[j]) == name(ms.last()));
        }
        if exists|j: int| 0 <= j < ms.len() - 1 && name(#[trigger] ms[j]) == name(ms.last()) {
            let j = choose|j: int| 0 <= j < ms.len() - 1 && name(#[trigger] ms[j]) == name(ms.last());
            assert(ms[j] == view(items[j]));
            assert(items[j].name_text() == items[n].name_text());
            assert(named_before(items, n));
        }
        assert(first_of_names(items).map_values(view) =~= first_names(ms, name));
    } else {
        assert(first_of_names(items).map_values(view) =~= first_names(ms, name));
    }
}

pub struct ParseModel {
    pub functions: Seq<FunctionModel>,
    pub types: Seq<TypeModel>,
    pub imports: Seq<ImportModel>,
    pub variables: Seq<VariableModel>,
}

impl View for ParseResult {
    type V = ParseModel;

    open spec fn view(&self) -> ParseModel {
        ParseModel {
            functions: function_models(self.functions@),
            types: type_models(self.types@),
            imports: import_models(self.imports@),
            variables: variable_models(self.variables@),
        }
    }
}

/// What is reported of a file: of the functions, types, imports and
/// variables that were found, the first of each name.
pub fn parse_result(
    functions: Vec<Function>,
    types: Vec<Type>,
    imports: Vec<Import>,
    variables: Vec<Variable>,
) -> (r: ParseResult)
    ensures
        r.functions@ == first_of_names(functions@),
        r.types@ == first_of_names(types@),
        r.imports@ == first_of_names(imports@),
        r.variables@ == first_of_names(variables@),
        r@ == (ParseModel {
            functions: first_names(function_models(functions@), function_name()),
            types: first_names(type_models(types@), type_name_of()),
            imports: first_names(import_models(imports@), import_name()),
            variables: first_names(variable_models(variables@), variable_name()),
        }),
{
    let r = ParseResult {
        functions: dedup_by_name(functions),
        types: dedup_by_name(types),
        imports: dedup_by_name(imports),
        variables: dedup_by_name(variables),
    };
    proof {
        let fv = |t: Function| t@;
        lemma_first_names(functions@, fv, function_name());
        assert(function_models(functions@) =~= functions@.map_values(fv));
        assert(function_models(r.functions@) =~= r.functions@.map_values(fv));
        let tv = |t: Type| t@;
        lemma_first_names(types@, tv, type_name_of());
        assert(type_models(types@) =~= types@.map_values(tv));
        assert(type_models(r.types@) =~= r.types@.map_values(tv));
        let iv = |t: Import| t@;
        lemma_first_names(imports@, iv, import_name());
        assert(import_models(imports@) =~= imports@.map_values(iv));
        assert(import_models(r.imports@) =~= r.imports@.map_values(iv));
        let vv = |t: Variable| t@;
        lemma_first_names(variables@, vv, variable_name());
        assert(variable_models(variables@) =~= variables@.map_values(vv));
        assert(variable_models(r.variables@) =~= r.variables@.map_values(vv));
    }
    r
}

/// What is reported of a file whose queries gave these matches.
pub open spec fn assembled(
    functions: Seq<Seq<CaptureModel>>,
    types: Seq<Seq<CaptureModel>>,
    imports: Seq<Seq<CaptureModel>>,
    variables: Seq<Seq<CaptureModel>>,
) -> ParseModel {
    ParseModel {
        functions: first_names(functions_in(functions), function_name()),
        types: first_names(types_in(types), type_name_of()),
        imports: first_names(imports_in(imports), import_name()),
        variables: first_names(variables_in(variables), variable_name()),
    }
}

pub fn assemble(
    functions: &Vec<Vec<Capture>>,
    types: &Vec<Vec<Capture>>,
    imports: &Vec<Vec<Capture>>,
    variables: &Vec<Vec<Capture>>,
) -> (r: ParseResult)
    ensures
        r@ == assembled(
            match_models(functions@),
            match_models(types@),
            match_models(imports@),
            match_models(variables@),
        ),
{
    parse_result(
        extract_functions(functions),
        extract_types(types),
        extract_imports(imports),
        extract_variables(variables),
    )
}

// ---------------------------------------------------------------------------
// From a source to what is reported of it
// ---------------------------------------------------------------------------

/// The queries of a language, one for each kind of thing to find.
pub struct QueryTexts {
    pub functions: String,
    pub types: String,
    pub imports: String,
    pub variables: String,
}

impl QueryTexts {
    /// The query for a kind.
    pub open spec fn of(&self, kind: ExtractKind) -> Seq<char> {
        match kind {
            ExtractKind::Functions => self.functions@,
            ExtractKind::Imports => self.imports@,
            ExtractKind::Types => self.types@,
            ExtractKind::Variables => self.variables@,
        }
    }
}

/// What is said of a query that found nothing.
pub open spec fn problem_text(kind: ExtractKind, problem: ProblemModel) -> Seq<char> {
    match problem {
        ProblemModel::Language => "Failed to set Tree-sitter language"@,
        ProblemModel::Parse => "Failed to parse source"@,
        ProblemModel::Query(e) => "Invalid "@ + kind.name() + " query: "@ + e,
    }
}

fn problem_message(kind: ExtractKind, problem: QueryProblem) -> (r: String)
    ensures
        r@ == problem_text(kind, problem@),
{
    match problem {
        QueryProblem::Language => string_of(
            chars_of("Failed to set Tree-sitter language").as_slice(),
        ),
        QueryProblem::Parse => string_of(chars_of("Failed to parse source").as_slice()),
        QueryProblem::Query(e) => {
            proof {
                reveal_with_fuel(glued, 5);
            }
            let parts: Vec<&str> = vec!["Invalid ", kind.as_str(), " query: ", e.as_str()];
            let message = concat(&parts);
            assert(message@ =~= "Invalid "@ + kind.name() + " query: "@ + e@);
            message
        },
    }
}

/// What is reported of a Rust source under the given queries: the queries
/// are run for functions, types, imports and variables in this order, and
/// the first that finds nothing for a reason ends the work with it.
pub open spec fn extraction(source: Seq<char>, queries: QueryTexts) -> Result<
    ParseModel,
    Seq<char>,
> {
    match query_result(queries.functions@, source) {
        Err(p) => Err(problem_text(ExtractKind::Functions, p)),
        Ok(functions) => match query_result(queries.types@, source) {
            Err(p) => Err(problem_text(ExtractKind::Types, p)),
            Ok(types) => match query_result(queries.imports@, source) {
                Err(p) => Err(problem_text(ExtractKind::Imports, p)),
                Ok(imports) => match query_result(queries.variables@, source) {
                    Err(p) => Err(problem_text(ExtractKind::Variables, p)),
                    Ok(variables) => Ok(assembled(functions, types, imports, variables)),
                },
            },
        },
    }
}

pub fn parse_and_extract(source: &str, queries: &QueryTexts) -> (r: Result<ParseResult, String>)
    ensures
        match r {
            Ok(found) => extraction(source@, *queries) == Ok::<ParseModel, Seq<char>>(found@),
            Err(message) => extraction(source@, *queries) == Err::<ParseModel, Seq<char>>(
                message@,
            ),
        },
{
    let functions = match run_query(queries.functions.as_str(), source) {
        Ok(matches) => matches,
        Err(problem) => {
            return Err(problem_message(ExtractKind::Functions, problem));
        },
    };
    let types = match run_query(queries.types.as_str(), source) {
        Ok(matches) => matches,
        Err(problem) => {
            return Err(problem_message(ExtractKind::Types, problem));
        },
    };
    let imports = match run_query(queries.imports.as_str(), source) {
        Ok(matches) => matches,
        Err(problem) => {
            return Err(problem_message(ExtractKind::Imports, problem));
        },
    };
    let variables = match run_query(queries.variables.as_str(), source) {
        Ok(matches) => matches,
        Err(problem) => {
            return Err(problem_message(ExtractKind::Variables, problem));
        },
    };
    Ok(assemble(&functions, &types, &imports, &variables))
}

/// A parser for the sources of one language, with the queries that find
/// what is reported.
pub struct Parser<S: LanguageSpec> {
    pub spec: S,
    pub queries: QueryTexts,
}

impl<S: LanguageSpec> Parser<S> {
    pub fn new(spec: S, queries: QueryTexts) -> (parser: Parser<S>)
        ensures
            parser.spec == spec,
            parser.queries == queries,
    {
        Parser { spec, queries }
    }

    /// What is reported of a source.
    pub fn parse_and_extract(&self, source: &str) -> (r: Result<ParseResult, String>)
        ensures
            match r {
                Ok(found) => extraction(source@, self.queries) == Ok::<ParseModel, Seq<char>>(
                    found@,
                ),
                Err(message) => extraction(source@, self.queries) == Err::<ParseModel, Seq<char>>(
                    message@,
                ),
            },
    {
        parse_and_extract(source, &self.queries)
    }
}

} // verus!
