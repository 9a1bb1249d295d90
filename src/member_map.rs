use vstd::prelude::*;

use crate::semantic_tree::FuncInfo;

verus! {

/// The declarations of a batch of files, by id, with the ids of the entry points in the order
/// they were added.
pub struct MemberMap {
    members: Vec<FuncInfo>,
    entries: Vec<usize>,
}

/// The members of `v` declared in file `name`, in order.
pub open spec fn in_file(v: Seq<FuncInfo>, name: Seq<char>) -> Seq<FuncInfo> {
    v.filter(|m: FuncInfo| m.file_name@ == name)
}

proof fn lemma_in_file_push(v: Seq<FuncInfo>, m: FuncInfo, name: Seq<char>)
    ensures
        in_file(v.push(m), name) == if m.file_name@ == name {
            in_file(v, name).push(m)
        } else {
            in_file(v, name)
        },
{
    assert(v.push(m).drop_last() =~= v);
    reveal_with_fuel(Seq::filter, 1);
}

impl MemberMap {
    /// The members, in the order they were added.
    pub closed spec fn members(&self) -> Seq<FuncInfo> {
        self.members@
    }

    /// The ids of the members that are entry points, in the order they were added.
    pub closed spec fn entry_ids(&self) -> Seq<usize> {
        self.entries@
    }

    /// The id is taken by a member.
    pub open spec fn has_id(&self, id: usize) -> bool {
        exists|i: int| 0 <= i < self.members().len() && (#[trigger] self.members()[i]).func_id == id
    }

    /// No two members share an id.
    pub open spec fn wf(&self) -> bool {
        forall|i: int, j: int|
            0 <= i < j < self.members().len() ==> (#[trigger] self.members()[i]).func_id
                != (#[trigger] self.members()[j]).func_id
    }

    pub fn new() -> (r: MemberMap)
        ensures
            r.members().len() == 0,
            r.entry_ids().len() == 0,
            r.wf(),
    {
        MemberMap { members: Vec::new(), entries: Vec::new() }
    }

    /// How many members were added under distinct ids.
    pub fn len(&self) -> (r: usize)
        ensures
            r == self.members().len(),
    {
        self.members.len()
    }

    /// Adds a member. An entry point's id is recorded either way. If the id is already taken, the
    /// new member replaces the old one under that id and the result is an error.
    pub fn insert(&mut self, func: FuncInfo) -> (r: Result<(), ()>)
        requires
            old(self).wf(),
        ensures
            final(self).wf(),
            r is Err <==> old(self).has_id(func.func_id),
            r is Ok ==> final(self).members() == old(self).members().push(func),
            r is Err ==> final(self).members().len() == old(self).members().len() && forall|i: int|
                0 <= i < old(self).members().len() ==> (#[trigger] final(self).members()[i]) == if old(
                    self,
                ).members()[i].func_id == func.func_id {
                    func
                } else {
                    old(self).members()[i]
                },
            final(self).entry_ids() == if func.is_entry {
                old(self).entry_ids().push(func.func_id)
            } else {
                old(self).entry_ids()
            },
    {
        if func.is_entry {
            self.entries.push(func.func_id);
        }
        let mut i: usize = 0;
        while i < self.members.len()
            invariant
                i <= self.members@.len(),
                self.members@ == old(self).members@,
                old(self).wf(),
                self.entries@ == if func.is_entry {
                    old(self).entries@.push(func.func_id)
                } else {
                    old(self).entries@
                },
                forall|j: int| 0 <= j < i ==> (#[trigger] self.members@[j]).func_id != func.func_id,
            decreases self.members@.len() - i,
        {
            if self.members[i].func_id == func.func_id {
                let ghost before = self.members@;
                self.members.set(i, func);
                proof {
                    assert forall|j: int| 0 <= j < before.len() implies (#[trigger] self.members@[j])
                        == if before[j].func_id == self.members@[i as int].func_id {
                        self.members@[i as int]
                    } else {
                        before[j]
                    } by {
                        if j != i && before[j].func_id == before[i as int].func_id {
                            if j < i {
                                assert(old(self).members()[j].func_id != old(self).members()[i as int].func_id);
                            } else {
                                assert(old(self).members()[i as int].func_id != old(self).members()[j].func_id);
                            }
                        }
                    }
                    assert forall|a: int, b: int|
                        0 <= a < b < self.members@.len() implies (#[trigger] self.members@[a]).func_id
                            != (#[trigger] self.members@[b]).func_id by {
                        assert(old(self).members()[a].func_id != old(self).members()[b].func_id);
                    }
                }
                return Err(());
            }
            i += 1;
        }
        self.members.push(func);
        Ok(())
    }

    /// The members declared in file `file_name`, in the order they were added.
    pub fn get_from_file_name(&self, file_name: &str) -> (r: Vec<&FuncInfo>)
        ensures
            r@.map_values(|m: &FuncInfo| *m) == in_file(self.members(), file_name@),
    {
        let mut out: Vec<&FuncInfo> = Vec::new();
        let name = String::from_str(file_name);
        let mut i: usize = 0;
        while i < self.members.len()
            invariant
                name@ == file_name@,
                i <= self.members@.len(),
                out@.map_values(|m: &FuncInfo| *m) == in_file(self.members@.subrange(0, i as int), file_name@),
            decreases self.members@.len() - i,
        {
            let m = &self.members[i];
            proof {
                assert(self.members@.subrange(0, i + 1) =~= self.members@.subrange(0, i as int).push(*m));
                lemma_in_file_push(self.members@.subrange(0, i as int), *m, file_name@);
            }
            let ghost before = out@;
            if m.file_name == name {
                out.push(m);
                assert(out@.map_values(|x: &FuncInfo| *x) =~= before.map_values(|x: &FuncInfo| *x).push(*m));
            }
            i += 1;
        }
        assert(self.members@.subrange(0, self.members@.len() as int) =~= self.members@);
        out
    }

    /// The ids of the entry points, in the order they were added.
    pub fn get_entrypoint_ids(&self) -> (r: &[usize])
        ensures
            r@ == self.entry_ids(),
    {
        self.entries.as_slice()
    }
}

} // verus!
