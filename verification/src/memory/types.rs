//! What the library remembers of a project: facts about single files, and
//! what follows from them for the project as a whole.

use vstd::prelude::*;

verus! {

/// How much a symbol fact can be relied on.
#[derive(Clone, Copy, PartialEq, Eq, Structural, Debug)]
pub enum ConfidenceLevel {
    Low,
    Medium,
    High,
}

impl Default for ConfidenceLevel {
    fn default() -> (level: ConfidenceLevel)
        ensures
            level == ConfidenceLevel::Medium,
    {
        ConfidenceLevel::Medium
    }
}

/// The text each string of `v` holds.
pub open spec fn texts(v: Seq<String>) -> Seq<Seq<char>> {
    Seq::new(v.len(), |i: int| v[i]@)
}

pub proof fn lemma_texts_push(v: Seq<String>, s: String)
    ensures
        texts(v.push(s)) == texts(v).push(s@),
{
    assert(texts(v.push(s)) =~= texts(v).push(s@));
}

pub fn copy_strings(v: &Vec<String>) -> (r: Vec<String>)
    ensures
        texts(r@) == texts(v@),
{
    let mut r: Vec<String> = Vec::new();
    let mut i: usize = 0;
    while i < v.len()
        invariant
            i <= v.len(),
            texts(r@) == texts(v@).take(i as int),
        decreases v.len() - i,
    {
        let ghost before = r@;
        let s = v[i].clone();
        r.push(s);
        i += 1;
        proof {
            lemma_texts_push(before, s);
            assert(texts(v@).take(i as int) =~= texts(v@).take(i - 1).push(v@[i - 1]@));
        }
    }
    assert(texts(v@).take(v.len() as int) =~= texts(v@));
    r
}

#[derive(Debug)]
pub struct FieldInfo {
    pub name: String,
    pub type_text: String,
    pub visibility: String,
}

#[derive(Debug)]
pub struct VariantInfo {
    pub name: String,
    pub data: String,
}

#[derive(Debug)]
pub struct ParameterInfo {
    pub name: String,
    pub type_text: String,
}

impl View for FieldInfo {
    type V = (Seq<char>, Seq<char>, Seq<char>);

    open spec fn view(&self) -> Self::V {
        (self.name@, self.type_text@, self.visibility@)
    }
}

impl View for VariantInfo {
    type V = (Seq<char>, Seq<char>);

    open spec fn view(&self) -> Self::V {
        (self.name@, self.data@)
    }
}

impl View for ParameterInfo {
    type V = (Seq<char>, Seq<char>);

    open spec fn view(&self) -> Self::V {
        (self.name@, self.type_text@)
    }
}

impl Clone for FieldInfo {
    fn clone(&self) -> (r: Self)
        ensures
            r@ == self@,
    {
        FieldInfo {
            name: self.name.clone(),
            type_text: self.type_text.clone(),
            visibility: self.visibility.clone(),
        }
    }
}

impl Clone for VariantInfo {
    fn clone(&self) -> (r: Self)
        ensures
            r@ == self@,
    {
        VariantInfo { name: self.name.clone(), data: self.data.clone() }
    }
}

impl Clone for ParameterInfo {
    fn clone(&self) -> (r: Self)
        ensures
            r@ == self@,
    {
        ParameterInfo { name: self.name.clone(), type_text: self.type_text.clone() }
    }
}

/// What more is known of a symbol. Every part may be empty.
#[derive(Debug)]
pub struct SymbolDetails {
    pub visibility: String,
    pub modifiers: Vec<String>,
    pub signature: String,
    pub fields: Vec<FieldInfo>,
    pub variants: Vec<VariantInfo>,
    pub parameters: Vec<ParameterInfo>,
    pub return_type: String,
    pub generics: String,
}

pub struct DetailsModel {
    pub visibility: Seq<char>,
    pub modifiers: Seq<Seq<char>>,
    pub signature: Seq<char>,
    pub fields: Seq<(Seq<char>, Seq<char>, Seq<char>)>,
    pub variants: Seq<(Seq<char>, Seq<char>)>,
    pub parameters: Seq<(Seq<char>, Seq<char>)>,
    pub return_type: Seq<char>,
    pub generics: Seq<char>,
}

/// Details of which nothing is known.
pub open spec fn no_details() -> DetailsModel {
    DetailsModel {
        visibility: Seq::empty(),
        modifiers: Seq::empty(),
        signature: Seq::empty(),
        fields: Seq::empty(),
        variants: Seq::empty(),
        parameters: Seq::empty(),
        return_type: Seq::empty(),
        generics: Seq::empty(),
    }
}

impl View for SymbolDetails {
    type V = DetailsModel;

    open spec fn view(&self) -> DetailsModel {
        DetailsModel {
            visibility: self.visibility@,
            modifiers: texts(self.modifiers@),
            signature: self.signature@,
            fields: Seq::new(self.fields@.len(), |i: int| self.fields@[i]@),
            variants: Seq::new(self.variants@.len(), |i: int| self.variants@[i]@),
            parameters: Seq::new(self.parameters@.len(), |i: int| self.parameters@[i]@),
            return_type: self.return_type@,
            generics: self.generics@,
        }
    }
}

impl Default for SymbolDetails {
    fn default() -> (details: SymbolDetails)
        ensures
            details@ == no_details(),
    {
        let details = SymbolDetails {
            visibility: String::new(),
            modifiers: Vec::new(),
            signature: String::new(),
            fields: Vec::new(),
            variants: Vec::new(),
            parameters: Vec::new(),
            return_type: String::new(),
            generics: String::new(),
        };
        proof {
            assert(details@.modifiers =~= Seq::empty());
            assert(details@.fields =~= Seq::empty());
            assert(details@.variants =~= Seq::empty());
            assert(details@.parameters =~= Seq::empty());
        }
        details
    }
}

impl Clone for SymbolDetails {
    fn clone(&self) -> (r: Self)
        ensures
            r@ == self@,
    {
        let mut fields: Vec<FieldInfo> = Vec::new();
        let mut i: usize = 0;
        while i < self.fields.len()
            invariant
                i <= self.fields.len(),
                fields.len() == i,
                forall|j: int| 0 <= j < i ==> fields@[j]@ == self.fields@[j]@,
            decreases self.fields.len() - i,
        {
            fields.push(self.fields[i].clone());
            i += 1;
        }
        let mut variants: Vec<VariantInfo> = Vec::new();
        let mut i: usize = 0;
        while i < self.variants.len()
            invariant
                i <= self.variants.len(),
                variants.len() == i,
                forall|j: int| 0 <= j < i ==> variants@[j]@ == self.variants@[j]@,
            decreases self.variants.len() - i,
        {
            variants.push(self.variants[i].clone());
            i += 1;
        }
        let mut parameters: Vec<ParameterInfo> = Vec::new();
        let mut i: usize = 0;
        while i < self.parameters.len()
            invariant
                i <= self.parameters.len(),
                parameters.len() == i,
                forall|j: int| 0 <= j < i ==> parameters@[j]@ == self.parameters@[j]@,
            decreases self.parameters.len() - i,
        {
            parameters.push(self.parameters[i].clone());
            i += 1;
        }
        let r = SymbolDetails {
            visibility: self.visibility.clone(),
            modifiers: copy_strings(&self.modifiers),
            signature: self.signature.clone(),
            fields,
            variants,
            parameters,
            return_type: self.return_type.clone(),
            generics: self.generics.clone(),
        };
        proof {
            assert(r@.fields =~= self@.fields);
            assert(r@.variants =~= self@.variants);
            assert(r@.parameters =~= self@.parameters);
        }
        r
    }
}

/// One declaration found in a file.
#[derive(Debug)]
pub struct SymbolFact {
    pub name: String,
    pub kind: String,
    /// The number of the line, counted from 1.
    pub line: usize,
    pub confidence: ConfidenceLevel,
    pub details: SymbolDetails,
}

pub struct FactModel {
    pub name: Seq<char>,
    pub kind: Seq<char>,
    pub line: nat,
    pub confidence: ConfidenceLevel,
    pub details: DetailsModel,
}

impl View for SymbolFact {
    type V = FactModel;

    open spec fn view(&self) -> FactModel {
        FactModel {
            name: self.name@,
            kind: self.kind@,
            line: self.line as nat,
            confidence: self.confidence,
            details: self.details@,
        }
    }
}

impl Clone for SymbolFact {
    fn clone(&self) -> (r: Self)
        ensures
            r@ == self@,
    {
        SymbolFact {
            name: self.name.clone(),
            kind: self.kind.clone(),
            line: self.line,
            confidence: self.confidence,
            details: self.details.clone(),
        }
    }
}

pub open spec fn fact_models(v: Seq<SymbolFact>) -> Seq<FactModel> {
    Seq::new(v.len(), |i: int| v[i]@)
}

/// The facts about one file.
#[derive(Debug)]
pub struct FileMemory {
    pub path: String,
    pub language: String,
    pub symbol_count: usize,
    pub import_count: usize,
    pub symbols: Vec<SymbolFact>,
    pub imports: Vec<String>,
}

pub struct FileModel {
    pub path: Seq<char>,
    pub language: Seq<char>,
    pub symbol_count: nat,
    pub import_count: nat,
    pub symbols: Seq<FactModel>,
    pub imports: Seq<Seq<char>>,
}

impl View for FileMemory {
    type V = FileModel;

    open spec fn view(&self) -> FileModel {
        FileModel {
            path: self.path@,
            language: self.language@,
            symbol_count: self.symbol_count as nat,
            import_count: self.import_count as nat,
            symbols: fact_models(self.symbols@),
            imports: texts(self.imports@),
        }
    }
}

impl FileMemory {
    /// The counts say how many symbols and imports the file memory holds.
    pub open spec fn counts_agree(&self) -> bool {
        &&& self.symbol_count == self.symbols@.len()
        &&& self.import_count == self.imports@.len()
    }
}

impl Clone for FileMemory {
    fn clone(&self) -> (r: Self)
        ensures
            r@ == self@,
    {
        let mut symbols: Vec<SymbolFact> = Vec::new();
        let mut i: usize = 0;
        while i < self.symbols.len()
            invariant
                i <= self.symbols.len(),
                symbols.len() == i,
                forall|j: int| 0 <= j < i ==> symbols@[j]@ == self.symbols@[j]@,
            decreases self.symbols.len() - i,
        {
            symbols.push(self.symbols[i].clone());
            i += 1;
        }
        let r = FileMemory {
            path: self.path.clone(),
            language: self.language.clone(),
            symbol_count: self.symbol_count,
            import_count: self.import_count,
            symbols,
            imports: copy_strings(&self.imports),
        };
        proof {
            assert(r@.symbols =~= self@.symbols);
        }
        r
    }
}

pub open spec fn file_models(v: Seq<FileMemory>) -> Seq<FileModel> {
    Seq::new(v.len(), |i: int| v[i]@)
}

/// A symbol of one name and kind, with every file that declares it.
#[derive(Debug)]
pub struct GlobalSymbol {
    pub name: String,
    pub kind: String,
    pub defined_in: Vec<String>,
}

pub struct GlobalModel {
    pub name: Seq<char>,
    pub kind: Seq<char>,
    pub defined_in: Seq<Seq<char>>,
}

impl View for GlobalSymbol {
    type V = GlobalModel;

    open spec fn view(&self) -> GlobalModel {
        GlobalModel { name: self.name@, kind: self.kind@, defined_in: texts(self.defined_in@) }
    }
}

impl Clone for GlobalSymbol {
    fn clone(&self) -> (r: Self)
        ensures
            r@ == self@,
    {
        GlobalSymbol {
            name: self.name.clone(),
            kind: self.kind.clone(),
            defined_in: copy_strings(&self.defined_in),
        }
    }
}

pub open spec fn global_models(v: Seq<GlobalSymbol>) -> Seq<GlobalModel> {
    Seq::new(v.len(), |i: int| v[i]@)
}

/// Something about the project that needs a person's attention.
#[derive(Debug)]
pub struct OpenItem {
    pub kind: String,
    pub symbol: String,
    pub message: String,
    pub files: Vec<String>,
}

pub struct ItemModel {
    pub kind: Seq<char>,
    pub symbol: Seq<char>,
    pub message: Seq<char>,
    pub files: Seq<Seq<char>>,
}

impl View for OpenItem {
    type V = ItemModel;

    open spec fn view(&self) -> ItemModel {
        ItemModel {
            kind: self.kind@,
            symbol: self.symbol@,
            message: self.message@,
            files: texts(self.files@),
        }
    }
}

impl Clone for OpenItem {
    fn clone(&self) -> (r: Self)
        ensures
            r@ == self@,
    {
        OpenItem {
            kind: self.kind.clone(),
            symbol: self.symbol.clone(),
            message: self.message.clone(),
            files: copy_strings(&self.files),
        }
    }
}

pub open spec fn item_models(v: Seq<OpenItem>) -> Seq<ItemModel> {
    Seq::new(v.len(), |i: int| v[i]@)
}

/// A file that seems to use a symbol of another file.
#[derive(Debug)]
pub struct CrossFileLink {
    pub from_file: String,
    pub to_file: String,
    pub symbol: String,
    pub reason: String,
}

pub struct LinkModel {
    pub from_file: Seq<char>,
    pub to_file: Seq<char>,
    pub symbol: Seq<char>,
    pub reason: Seq<char>,
}

impl View for CrossFileLink {
    type V = LinkModel;

    open spec fn view(&self) -> LinkModel {
        LinkModel {
            from_file: self.from_file@,
            to_file: self.to_file@,
            symbol: self.symbol@,
            reason: self.reason@,
        }
    }
}

impl Clone for CrossFileLink {
    fn clone(&self) -> (r: Self)
        ensures
            r@ == self@,
    {
        CrossFileLink {
            from_file: self.from_file.clone(),
            to_file: self.to_file.clone(),
            symbol: self.symbol.clone(),
            reason: self.reason.clone(),
        }
    }
}

pub open spec fn link_models(v: Seq<CrossFileLink>) -> Seq<LinkModel> {
    Seq::new(v.len(), |i: int| v[i]@)
}

/// The facts about a project.
#[derive(Debug)]
pub struct ProjectMemory {
    pub file_count: usize,
    pub unique_symbol_count: usize,
    pub files: Vec<FileMemory>,
    pub global_symbols: Vec<GlobalSymbol>,
    pub open_items: Vec<OpenItem>,
    pub links: Vec<CrossFileLink>,
}

pub struct ProjectModel {
    pub file_count: nat,
    pub unique_symbol_count: nat,
    pub files: Seq<FileModel>,
    pub global_symbols: Seq<GlobalModel>,
    pub open_items: Seq<ItemModel>,
    pub links: Seq<LinkModel>,
}

impl View for ProjectMemory {
    type V = ProjectModel;

    open spec fn view(&self) -> ProjectModel {
        ProjectModel {
            file_count: self.file_count as nat,
            unique_symbol_count: self.unique_symbol_count as nat,
            files: file_models(self.files@),
            global_symbols: global_models(self.global_symbols@),
            open_items: item_models(self.open_items@),
            links: link_models(self.links@),
        }
    }
}

impl Clone for ProjectMemory {
    fn clone(&self) -> (r: Self)
        ensures
            r@ == self@,
    {
        let mut files: Vec<FileMemory> = Vec::new();
        let mut i: usize = 0;
        while i < self.files.len()
            invariant
                i <= self.files.len(),
                files.len() == i,
                forall|j: int| 0 <= j < i ==> files@[j]@ == self.files@[j]@,
            decreases self.files.len() - i,
        {
            files.push(self.files[i].clone());
            i += 1;
        }
        let mut global_symbols: Vec<GlobalSymbol> = Vec::new();
        let mut i: usize = 0;
        while i < self.global_symbols.len()
            invariant
                i <= self.global_symbols.len(),
                global_symbols.len() == i,
                forall|j: int| 0 <= j < i ==> global_symbols@[j]@ == self.global_symbols@[j]@,
            decreases self.global_symbols.len() - i,
        {
            global_symbols.push(self.global_symbols[i].clone());
            i += 1;
        }
        let mut open_items: Vec<OpenItem> = Vec::new();
        let mut i: usize = 0;
        while i < self.open_items.len()
            invariant
                i <= self.open_items.len(),
                open_items.len() == i,
                forall|j: int| 0 <= j < i ==> open_items@[j]@ == self.open_items@[j]@,
            decreases self.open_items.len() - i,
        {
            open_items.push(self.open_items[i].clone());
            i += 1;
        }
        let mut links: Vec<CrossFileLink> = Vec::new();
        let mut i: usize = 0;
        while i < self.links.len()
            invariant
                i <= self.links.len(),
                links.len() == i,
                forall|j: int| 0 <= j < i ==> links@[j]@ == self.links@[j]@,
            decreases self.links.len() - i,
        {
            links.push(self.links[i].clone());
            i += 1;
        }
        let r = ProjectMemory {
            file_count: self.file_count,
            unique_symbol_count: self.unique_symbol_count,
            files,
            global_symbols,
            open_items,
            links,
        };
        proof {
            assert(r@.files =~= self@.files);
            assert(r@.global_symbols =~= self@.global_symbols);
            assert(r@.open_items =~= self@.open_items);
            assert(r@.links =~= self@.links);
        }
        r
    }
}

} // verus!
