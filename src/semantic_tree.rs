use vstd::prelude::*;

use crate::ast::{Ast, AstType};
use crate::non_terminal::NonTerminal;

verus! {

/// How a declaration is exported.
#[derive(Clone, Copy, Debug, PartialEq, Eq, Structural)]
pub enum ExportedType {
    Export,
    DefaultExport,
    NotExported,
}

/// What the symbol table knows of one top-level declaration.
#[derive(Debug)]
pub struct FuncInfo {
    pub name: String,
    pub full_path: String,
    pub file_name: String,
    pub exported_type: ExportedType,
    pub func_id: usize,
    pub is_entry: bool,
    pub attributes: Vec<String>,
}

/// The attribute that marks the entry point.
pub open spec fn entry_point_attr() -> Seq<char> {
    "EntryPoint"@
}

impl FuncInfo {
    /// The declaration `name` of file `path`; it is the entry point when one of its attributes
    /// is `EntryPoint`.
    pub fn new(
        name: String,
        path: String,
        id: usize,
        attributes: Vec<String>,
        exported_type: ExportedType,
    ) -> (r: FuncInfo)
        ensures
            r.name@ == name@,
            r.file_name@ == path@,
            r.full_path@ == path@ + "#"@ + name@,
            r.func_id == id,
            r.exported_type == exported_type,
            r.is_entry == exists|i: int|
                0 <= i < attributes@.len() && (#[trigger] attributes@[i])@ == entry_point_attr(),
            r.attributes@ == attributes@,
    {
        let mut is_entry = false;
        let mut i: usize = 0;
        let entry = String::from_str("EntryPoint");
        while i < attributes.len()
            invariant
                i <= attributes@.len(),
                entry@ == entry_point_attr(),
                is_entry == exists|j: int|
                    0 <= j < i && (#[trigger] attributes@[j])@ == entry_point_attr(),
            decreases attributes@.len() - i,
        {
            if attributes[i] == entry {
                is_entry = true;
            }
            i += 1;
        }
        let mut full_path = path.clone();
        full_path.append("#");
        full_path.append(name.as_str());
        FuncInfo {
            name,
            full_path,
            file_name: path,
            exported_type,
            func_id: id,
            is_entry,
            attributes,
        }
    }
}

/// The name that declaration node `d` declares, if it has the shape the parser gives it:
/// `ExportableConstDeclaration` whose last child is a `ConstDeclaration` over a
/// `DeclarationBody` whose first child is the identifier.
pub open spec fn decl_name(d: Ast) -> Option<Seq<char>> {
    if d.ast_type == AstType::NonTerminal(NonTerminal::ExportableConstDeclaration) && 1
        <= d.kids().len() <= 3 {
        let c = d.kids()[d.kids().len() - 1];
        if c.kids().len() >= 1 && c.kids()[0].kids().len() >= 1 && c.kids()[0].kids()[0].token is Some {
            Some(c.kids()[0].kids()[0].leaf_token().base)
        } else {
            None
        }
    } else {
        None
    }
}

/// How the declaration `d` is exported: by its number of children.
pub open spec fn decl_export(d: Ast) -> ExportedType {
    if d.kids().len() == 3 {
        ExportedType::DefaultExport
    } else if d.kids().len() == 2 {
        ExportedType::Export
    } else {
        ExportedType::NotExported
    }
}

/// The text of an attribute node (its identifier), if it has one.
pub open spec fn attr_text(a: Ast) -> Option<Seq<char>> {
    if a.ast_type == AstType::NonTerminal(NonTerminal::Attribute) && a.kids().len() >= 1
        && a.kids()[0].token is Some {
        Some(a.kids()[0].leaf_token().base)
    } else {
        None
    }
}

/// The entry points declared by the top-level items `cs[i..]`, in order, where `pending` says
/// whether an `EntryPoint` attribute stands since the last declaration.
pub open spec fn entries_from(cs: Seq<Ast>, i: int, pending: bool) -> Seq<Seq<char>>
    decreases cs.len() - i,
{
    if i < 0 || i >= cs.len() {
        Seq::empty()
    } else if attr_text(cs[i]) is Some {
        entries_from(cs, i + 1, pending || attr_text(cs[i]) == Some(entry_point_attr()))
    } else if decl_name(cs[i]) is Some {
        let rest = entries_from(cs, i + 1, false);
        if pending {
            seq![decl_name(cs[i])->0] + rest
        } else {
            rest
        }
    } else {
        entries_from(cs, i + 1, pending)
    }
}

/// What the symbol table records of a declaration: its name, how it is exported, and whether
/// it is the entry point.
pub type DeclView = (Seq<char>, ExportedType, bool);

/// What the symbol table records of a member: name, file, export kind and entry flag.
pub type MemberView = (Seq<char>, Seq<char>, ExportedType, bool);

/// The declarations among the top-level items `cs[i..]`, in order, where `pending` says whether
/// an `EntryPoint` attribute stands since the last declaration.
pub open spec fn decls_from(cs: Seq<Ast>, i: int, pending: bool) -> Seq<DeclView>
    decreases cs.len() - i,
{
    if i < 0 || i >= cs.len() {
        Seq::empty()
    } else if attr_text(cs[i]) is Some {
        decls_from(cs, i + 1, pending || attr_text(cs[i]) == Some(entry_point_attr()))
    } else if decl_name(cs[i]) is Some {
        seq![(decl_name(cs[i])->0, decl_export(cs[i]), pending)] + decls_from(cs, i + 1, false)
    } else {
        decls_from(cs, i + 1, pending)
    }
}

/// The declarations `ds` of file `path`.
pub open spec fn with_file(ds: Seq<DeclView>, path: Seq<char>) -> Seq<MemberView> {
    ds.map_values(|d: DeclView| { let (n, x, e) = d; (n, path, x, e) })
}

/// The view of a member.
pub open spec fn member_view(f: FuncInfo) -> MemberView {
    (f.name@, f.file_name@, f.exported_type, f.is_entry)
}

/// The views of members, in order.
pub open spec fn member_views(ms: Seq<FuncInfo>) -> Seq<MemberView> {
    ms.map_values(|f: FuncInfo| member_view(f))
}

/// The members of files `files[k..]`, file by file, each file's in source order.
pub open spec fn members_of_files(files: Seq<(String, &Ast)>, k: int) -> Seq<MemberView>
    decreases files.len() - k,
{
    if k < 0 || k >= files.len() {
        Seq::empty()
    } else {
        with_file(decls_from(files[k].1.kids(), 0, false), files[k].0@) + members_of_files(
            files,
            k + 1,
        )
    }
}

/// The entry points of files `files[k..]`: the file index and the function name of each.
pub open spec fn entries_of_files(files: Seq<(String, &Ast)>, k: int) -> Seq<(int, Seq<char>)>
    decreases files.len() - k,
{
    if k < 0 || k >= files.len() {
        Seq::empty()
    } else {
        entries_from(files[k].1.kids(), 0, false).map_values(|n: Seq<char>| (k, n))
            + entries_of_files(files, k + 1)
    }
}

/// Every declaration among the items `cs` has one, two or three children (none, `export`,
/// `export default`).
pub open spec fn decls_well_formed(cs: Seq<Ast>) -> bool {
    forall|i: int|
        0 <= i < cs.len() && (#[trigger] cs[i]).ast_type == AstType::NonTerminal(
            NonTerminal::ExportableConstDeclaration,
        ) ==> 1 <= cs[i].kids().len() <= 3
}

/// Every file's top-level declarations are well formed.
pub open spec fn files_well_formed(files: Seq<(String, &Ast)>) -> bool {
    forall|k: int| 0 <= k < files.len() ==> decls_well_formed((#[trigger] files[k]).1.kids())
}

/// Why the symbol table of a batch could not be built.
#[derive(Clone, Copy, Debug, PartialEq, Eq, Structural)]
pub enum SemanticError {
    /// More than one function carries the entry-point attribute.
    MultipleEntryPoints,
}

/// The symbol table of a batch of parsed files.
pub struct SemanticTree<'a> {
    pub ast_list: Vec<(String, &'a Ast)>,
    members: Vec<FuncInfo>,
    entry_point_id: Option<usize>,
    entry_file: usize,
}

impl<'a> SemanticTree<'a> {
    /// The parsed files: path and tree of each.
    pub closed spec fn files(&self) -> Seq<(String, &Ast)> {
        self.ast_list@
    }

    /// The declarations found, in file order; a declaration's id is its index.
    pub closed spec fn members(&self) -> Seq<FuncInfo> {
        self.members@
    }

    /// The entry point found: its file index and name.
    pub closed spec fn entry(&self) -> Option<(int, Seq<char>)> {
        match self.entry_point_id {
            Some(id) => Some((self.entry_file as int, self.members@[id as int].name@)),
            None => None,
        }
    }

    pub closed spec fn wf(&self) -> bool {
        &&& forall|i: int| 0 <= i < self.members@.len() ==> (#[trigger] self.members@[i]).func_id == i
        &&& self.entry_point_id matches Some(id) ==> id < self.members@.len()
    }

    pub fn new(ast_list: Vec<(String, &'a Ast)>) -> (r: SemanticTree<'a>)
        ensures
            r.files() == ast_list@,
            r.members().len() == 0,
            r.entry() is None,
            r.wf(),
    {
        SemanticTree { ast_list, members: Vec::new(), entry_point_id: None, entry_file: 0 }
    }

    /// Builds the symbol table: one entry per declaration, with ids counting up across files,
    /// and the entry point. Fails exactly when more than one function carries the entry-point
    /// attribute.
    pub fn analyze(&mut self) -> (r: Result<(), SemanticError>)
        requires
            old(self).wf(),
            old(self).members().len() == 0,
            old(self).entry() is None,
        ensures
            final(self).files() == old(self).files(),
            final(self).wf(),
            r is Err <==> entries_of_files(old(self).files(), 0).len() >= 2,
            r is Ok ==> member_views(final(self).members()) == members_of_files(old(self).files(), 0),
            r is Ok ==> final(self).entry() == if entries_of_files(old(self).files(), 0).len()
                == 1 {
                Some(entries_of_files(old(self).files(), 0)[0])
            } else {
                None
            },
    {
        let ghost files = self.ast_list@;
        let mut k: usize = 0;
        let ghost mut found: Seq<(int, Seq<char>)> = Seq::empty();
        let ghost mut mseen: Seq<MemberView> = Seq::empty();
        let mut result: Result<(), SemanticError> = Ok(());
        proof {
            assert(member_views(self.members@) =~= mseen);
        }
        while k < self.ast_list.len()
            invariant_except_break
                result is Ok,
                mseen + members_of_files(files, k as int) == members_of_files(files, 0),
                member_views(self.members@) == mseen,
                found + entries_of_files(files, k as int) == entries_of_files(files, 0),
                found.len() <= 1,
                self.entry() == if found.len() == 1 {
                    Some(found[0])
                } else {
                    None
                },
            invariant
                self.ast_list@ == files,
                k <= files.len(),
                self.wf(),
            ensures
                self.ast_list@ == files,
                self.wf(),
                result is Ok ==> found + entries_of_files(files, k as int) == entries_of_files(
                    files,
                    0,
                ) && k == files.len(),
                result is Ok ==> self.entry() == if found.len() == 1 {
                    Some(found[0])
                } else {
                    None
                },
                result is Ok ==> found.len() <= 1,
                result is Ok ==> mseen + members_of_files(files, k as int) == members_of_files(files, 0)
                    && member_views(self.members@) == mseen,
                result is Err ==> entries_of_files(files, 0).len() >= 2,
            decreases files.len() - k,
        {
            let tunit: &Ast = self.ast_list[k].1;
            let path = self.ast_list[k].0.clone();
            let ghost fe = entries_from(tunit.kids(), 0, false).map_values(
                |n: Seq<char>| (k as int, n),
            );
            let ghost fm = with_file(decls_from(tunit.kids(), 0, false), path@);
            proof {
                assert(entries_of_files(files, k as int) == fe + entries_of_files(files, k + 1));
                assert(members_of_files(files, k as int) == fm + members_of_files(files, k + 1));
            }
            let res = self.construct_func_info_map(tunit, &path, k);
            match res {
                Ok(()) => {
                    proof {
                        mseen = mseen + fm;
                        assert(mseen + members_of_files(files, k + 1) =~= members_of_files(files, 0));
                        found = found + fe;
                        assert(found + entries_of_files(files, k + 1) =~= entries_of_files(files, 0));
                    }
                },
                Err(e) => {
                    proof {
                        assert(fe.len() == entries_from(tunit.kids(), 0, false).len());
                        assert(entries_of_files(files, 0) =~= found + fe + entries_of_files(
                            files,
                            k + 1,
                        ));
                    }
                    result = Err(e);
                    break;
                },
            }
            k += 1;
        }
        proof {
            if result is Ok {
                assert(found + entries_of_files(files, k as int) =~= found);
                assert(mseen + members_of_files(files, k as int) =~= mseen);
            }
        }
        result
    }

    /// Adds the declarations of one file, in order. Fails as soon as a second entry point
    /// (counting those found before) turns up.
    fn construct_func_info_map(&mut self, translation_unit: &Ast, path: &String, file: usize) -> (r: Result<(), SemanticError>)
        requires
            old(self).wf(),
        ensures
            final(self).ast_list == old(self).ast_list,
            final(self).wf(),
            r is Ok ==> member_views(final(self).members()) == member_views(old(self).members())
                + with_file(decls_from(translation_unit.kids(), 0, false), path@),
            ({
                let fe = entries_from(translation_unit.kids(), 0, false);
                let before = if old(self).entry() is Some { 1int } else { 0 };
                &&& r is Err <==> before + fe.len() >= 2
                &&& r is Ok ==> final(self).entry() == if old(self).entry() is Some {
                    old(self).entry()
                } else if fe.len() == 1 {
                    Some((file as int, fe[0]))
                } else {
                    None
                }
            }),
    {
        let empty: Vec<Ast> = Vec::new();
        let children: &Vec<Ast> = match &translation_unit.children {
            Some(c) => c,
            None => &empty,
        };
        let ghost cs = children@;
        assert(cs == translation_unit.kids());
        let ghost had = self.entry() is Some;
        let ghost prior = self.entry();
        let mut attributes: Vec<String> = Vec::new();
        let mut pending = false;
        let entry = String::from_str("EntryPoint");
        let mut i: usize = 0;
        let ghost mut seen: Seq<Seq<char>> = Seq::empty();
        let ghost mut dseen: Seq<DeclView> = Seq::empty();
        let mut result: Result<(), SemanticError> = Ok(());
        proof {
            assert(member_views(self.members@) =~= member_views(old(self).members@) + with_file(
                dseen,
                path@,
            ));
        }
        while i < children.len()
            invariant_except_break
                result is Ok,
                dseen + decls_from(cs, i as int, pending) == decls_from(cs, 0, false),
                member_views(self.members@) == member_views(old(self).members@) + with_file(
                    dseen,
                    path@,
                ),
                pending == exists|j: int|
                    0 <= j < attributes@.len() && (#[trigger] attributes@[j])@ == entry_point_attr(),
                seen + entries_from(cs, i as int, pending) == entries_from(cs, 0, false),
                (if had { 1int } else { 0 }) + seen.len() <= 1,
                self.entry() == if had {
                    prior
                } else if seen.len() == 1 {
                    Some((file as int, seen[0]))
                } else {
                    None
                },
            invariant
                cs == children@,
                i <= cs.len(),
                entry@ == entry_point_attr(),
                self.wf(),
                self.ast_list == old(self).ast_list,
                had == (old(self).entry() is Some),
                prior == old(self).entry(),
            ensures
                self.wf(),
                self.ast_list == old(self).ast_list,
                result is Ok ==> seen == entries_from(cs, 0, false) && (if had { 1int } else { 0 })
                    + seen.len() <= 1,
                result is Ok ==> self.entry() == if had {
                    prior
                } else if seen.len() == 1 {
                    Some((file as int, seen[0]))
                } else {
                    None
                },
                result is Err ==> (if had { 1int } else { 0 }) + entries_from(cs, 0, false).len()
                    >= 2,
                result is Ok ==> member_views(self.members@) == member_views(old(self).members@)
                    + with_file(decls_from(cs, 0, false), path@),
            decreases cs.len() - i,
        {
            let item = &children[i];
            let attr = attribute_text(item);
            match attr {
                Some(text) => {
                    let marks_entry = text == entry;
                    let ghost old_attrs = attributes@;
                    let ghost was_pending = pending;
                    attributes.push(text);
                    if marks_entry {
                        pending = true;
                    }
                    proof {
                        let n = old_attrs.len();
                        assert(attributes@ == old_attrs.push(attributes@[n as int]));
                        if was_pending {
                            let j = choose|j: int|
                                0 <= j < old_attrs.len() && (#[trigger] old_attrs[j])@
                                    == entry_point_attr();
                            assert(attributes@[j] == old_attrs[j]);
                        }
                        if marks_entry {
                            assert(attributes@[n as int]@ == entry_point_attr());
                        }
                        if exists|j: int|
                            0 <= j < attributes@.len() && (#[trigger] attributes@[j])@
                                == entry_point_attr() {
                            let j = choose|j: int|
                                0 <= j < attributes@.len() && (#[trigger] attributes@[j])@
                                    == entry_point_attr();
                            if j < n {
                                assert(old_attrs[j] == attributes@[j]);
                            }
                        }
                    }
                    i += 1;
                    continue;
                },
                None => {},
            }
            match declaration_name(item) {
                None => {
                    i += 1;
                },
                Some(name) => {
                    let exported = declaration_export(item);
                    let id = self.members.len();
                    let info = FuncInfo::new(name, path.clone(), id, attributes, exported);
                    attributes = Vec::new();
                    let is_entry = info.is_entry;
                    assert(is_entry == pending);
                    let ghost nm = info.name@;
                    let ghost mv = member_view(info);
                    let ghost ms0 = self.members@;
                    self.members.push(info);
                    proof {
                        assert(member_views(self.members@) =~= member_views(ms0).push(mv));
                        let dv: DeclView = (nm, exported, pending);
                        assert(decls_from(cs, i as int, pending) =~= seq![dv] + decls_from(cs, i + 1, false));
                        assert(with_file(dseen.push(dv), path@) =~= with_file(dseen, path@).push(mv));
                        dseen = dseen.push(dv);
                        assert(dseen + decls_from(cs, i + 1, false) =~= decls_from(cs, 0, false));
                    }
                    if is_entry {
                        if self.entry_point_id.is_some() {
                            proof {
                                assert(entries_from(cs, i as int, pending) =~= seq![nm]
                                    + entries_from(cs, i + 1, false));
                                assert(entries_from(cs, 0, false).len() == seen.len() + 1
                                    + entries_from(cs, i + 1, false).len());
                                assert(had || seen.len() == 1);
                            }
                            result = Err(SemanticError::MultipleEntryPoints);
                            break;
                        }
                        self.entry_point_id = Some(id);
                        self.entry_file = file;
                        proof {
                            seen = seen.push(nm);
                            assert(seen + entries_from(cs, i + 1, false) =~= entries_from(cs, 0, false));
                        }
                    }
                    pending = false;
                    i += 1;
                },
            }
        }
        proof {
            if result is Ok && i == cs.len() {
                assert(entries_from(cs, i as int, pending) =~= Seq::<Seq<char>>::empty());
                assert(seen + entries_from(cs, i as int, pending) =~= seen);
                assert(decls_from(cs, i as int, pending) =~= Seq::<DeclView>::empty());
                assert(dseen + decls_from(cs, i as int, pending) =~= dseen);
            }
        }
        result
    }

    /// The name of the entry-point function, if there is one.
    pub fn get_entrypoint_func_name(&self) -> (r: Option<String>)
        requires
            self.wf(),
        ensures
            r matches Some(s) ==> self.entry() matches Some(e) && s@ == e.1,
            r is None <==> self.entry() is None,
    {
        match self.entry_point_id {
            Some(id) => Some(self.members[id].name.clone()),
            None => None,
        }
    }

    /// The file index of the entry-point function, if there is one.
    pub fn get_entrypoint_file(&self) -> (r: Option<usize>)
        ensures
            r matches Some(f) ==> self.entry() matches Some(e) && f as int == e.0,
            r is None <==> self.entry() is None,
    {
        match self.entry_point_id {
            Some(_) => Some(self.entry_file),
            None => None,
        }
    }

    /// Whether every file's top-level declarations have one to three children, as the parser
    /// builds them.
    pub fn declarations_well_formed(&self) -> (r: bool)
        ensures
            r == files_well_formed(self.files()),
    {
        let mut k: usize = 0;
        while k < self.ast_list.len()
            invariant
                k <= self.ast_list@.len(),
                forall|j: int| 0 <= j < k ==> decls_well_formed((#[trigger] self.ast_list@[j]).1.kids()),
            decreases self.ast_list@.len() - k,
        {
            let ast: &Ast = self.ast_list[k].1;
            let empty: Vec<Ast> = Vec::new();
            let cs: &Vec<Ast> = match &ast.children {
                Some(c) => c,
                None => &empty,
            };
            assert(cs@ == ast.kids());
            let mut i: usize = 0;
            while i < cs.len()
                invariant
                    i <= cs@.len(),
                    k < self.ast_list@.len(),
                    cs@ == self.ast_list@[k as int].1.kids(),
                    forall|j: int|
                        0 <= j < i && (#[trigger] cs@[j]).ast_type == AstType::NonTerminal(
                            NonTerminal::ExportableConstDeclaration,
                        ) ==> 1 <= cs@[j].kids().len() <= 3,
                decreases cs@.len() - i,
            {
                let d = &cs[i];
                if d.ast_type == AstType::NonTerminal(NonTerminal::ExportableConstDeclaration) {
                    let n = match &d.children {
                        Some(c) => c.len(),
                        None => 0,
                    };
                    if n < 1 || n > 3 {
                        proof {
                            assert(cs@[i as int].kids().len() == n);
                            assert(!decls_well_formed(self.ast_list@[k as int].1.kids()));
                        }
                        return false;
                    }
                }
                i += 1;
            }
            k += 1;
        }
        true
    }

    /// How many files the batch holds.
    pub fn file_count(&self) -> (r: usize)
        ensures
            r == self.files().len(),
    {
        self.ast_list.len()
    }

    /// The path of file `k`.
    pub fn file_path(&self, k: usize) -> (r: &String)
        requires
            k < self.files().len(),
        ensures
            *r == self.files()[k as int].0,
    {
        &self.ast_list[k].0
    }

    /// The tree of file `k`.
    pub fn file_ast(&self, k: usize) -> (r: &'a Ast)
        requires
            k < self.files().len(),
        ensures
            r == self.files()[k as int].1,
    {
        self.ast_list[k].1
    }

    /// The declarations found, in order; each one's id is its index.
    pub fn get_members(&self) -> (r: &Vec<FuncInfo>)
        ensures
            r@ == self.members(),
    {
        &self.members
    }
}

/// The identifier of an attribute node.
fn attribute_text(a: &Ast) -> (r: Option<String>)
    ensures
        r matches Some(s) ==> attr_text(*a) == Some(s@),
        r is None <==> attr_text(*a) is None,
{
    if a.ast_type != AstType::NonTerminal(NonTerminal::Attribute) {
        return None;
    }
    match &a.children {
        Some(c) => {
            if c.len() >= 1 {
                match &c[0].token {
                    Some(t) => Some(String::from_str(t.get_base_text())),
                    None => None,
                }
            } else {
                None
            }
        },
        None => None,
    }
}

/// The name that a declaration node declares.
fn declaration_name(d: &Ast) -> (r: Option<String>)
    ensures
        r matches Some(s) ==> decl_name(*d) == Some(s@),
        r is None <==> decl_name(*d) is None,
{
    if d.ast_type != AstType::NonTerminal(NonTerminal::ExportableConstDeclaration) {
        return None;
    }
    let kids = match &d.children {
        Some(c) => c,
        None => {
            return None;
        },
    };
    if kids.len() < 1 || kids.len() > 3 {
        return None;
    }
    let c = &kids[kids.len() - 1];
    let ck = match &c.children {
        Some(x) => x,
        None => {
            return None;
        },
    };
    if ck.len() < 1 {
        return None;
    }
    let body = match &ck[0].children {
        Some(x) => x,
        None => {
            return None;
        },
    };
    if body.len() < 1 {
        return None;
    }
    match &body[0].token {
        Some(t) => Some(String::from_str(t.get_base_text())),
        None => None,
    }
}

fn declaration_export(d: &Ast) -> (r: ExportedType)
    ensures
        r == decl_export(*d),
{
    let n = match &d.children {
        Some(c) => c.len(),
        None => 0,
    };
    if n == 3 {
        ExportedType::DefaultExport
    } else if n == 2 {
        ExportedType::Export
    } else {
        ExportedType::NotExported
    }
}

} // verus!
