//! The x86-64 execution engine: a program loaded from assembly lines, its
//! code labels, and the machine it runs on.
use vstd::prelude::*;
use crate::common::{AbstractComparison, MemoryAccess, expr_text, push_expr_text, strings_view};
use crate::relocs::{join_commas, reloc_json};
use crate::text::{chars_of, int_text, push_chars, push_int_text, push_str, string_from_chars};
use crate::computer::{
    RelocModel, Relocation, X86Computer, X86Model, initial_registers, initial_simd, relocs_view,
    stack_region,
};
use crate::data::{DataItem, ItemModel, data_def, data_def_ok, data_def_ok_exec, opt_item_view, parse_data_def};
use crate::layout::{
    EmitModel, LayoutModel, emissions_view, fill_all, fill_memory, fill_ok, fill_ok_exec, items_of,
    layout_data, layout_fits, layout_fits_exec, layout_items,
};
use crate::loader::{FrontModel, front_init, front_run, front_step, lines_view, split_lines};
use crate::text::trim;
use crate::parser::{InstrModel, X86Instruction, line_model, line_ok, parse_x86_line_checked};
use crate::strmap::StrMap;

verus! {

/// A loaded program and the machine state it runs on.
pub struct ExecutionEngineX86 {
    pub computer: X86Computer,
    pub program: Vec<X86Instruction>,
    pub label_map: StrMap<usize>,
    /// Earlier branch decisions: position, decision, condition, the
    /// memory accesses of that path, and the machine state there.
    pub jump_history: Vec<(usize, bool, AbstractComparison, Vec<MemoryAccess>, X86Computer)>,
    pub in_loop: bool,
}

pub open spec fn instrs_view(v: Seq<X86Instruction>) -> Seq<InstrModel> {
    v.map_values(|i: X86Instruction| i@)
}

/// The instructions of the code lines: each line that parses as one.
pub open spec fn program_of(code: Seq<Seq<char>>) -> Seq<InstrModel>
    decreases code.len(),
{
    if code.len() == 0 {
        Seq::empty()
    } else {
        program_of(code.drop_last()) + match line_model(code.last()) {
            Some(i) => seq![i],
            None => Seq::empty(),
        }
    }
}

/// The machine right after loading: fresh registers and stack, the data
/// labels of the layout.
pub open spec fn loaded_machine(lay: LayoutModel) -> X86Model {
    X86Model {
        registers: initial_registers(),
        simd: initial_simd(),
        memory: map![("sp"@) => stack_region()],
        memory_order: seq!["sp"@],
        labels: lay.labels,
        label_order: lay.label_order,
        relocations: Seq::empty(),
        assertions: Seq::empty(),
    }
}

/// The split of a file's lines.
pub open spec fn asm_front(lines: Seq<Seq<char>>) -> FrontModel {
    front_run(lines, front_init())
}

/// The layout of a file's data.
pub open spec fn asm_layout(lines: Seq<Seq<char>>) -> LayoutModel {
    layout_items(items_of(asm_front(lines).defs))
}

/// The files the loader reads without a fault: every instruction line and
/// data definition reads without one, addresses stay within `i64`, and
/// every label expression resolves without overflow.
pub open spec fn asm_ok(lines: Seq<Seq<char>>) -> bool {
    let f = asm_front(lines);
    let lay = asm_layout(lines);
    &&& forall|i: int| 0 <= i < f.code.len() ==> line_ok(#[trigger] f.code[i])
    &&& forall|i: int| 0 <= i < f.defs.len() ==> data_def_ok(#[trigger] f.defs[i])
    &&& layout_fits(items_of(f.defs))
    &&& fill_ok(lay.labels, lay.emissions)
}

impl ExecutionEngineX86 {
    /// Loads an assembly file given as its lines: instructions go to the
    /// program, code labels to the label map, and data definitions are laid
    /// out in the region `memory` from address 4 on, their labels recorded,
    /// unresolved label expressions recorded as relocations.
    pub fn from_asm_lines(lines: &Vec<String>) -> (r: Self)
        requires
            asm_ok(lines_view(lines@)),
        ensures
            instrs_view(r.program@) == program_of(asm_front(lines_view(lines@)).code),
            r.label_map@ == asm_front(lines_view(lines@)).labels,
            r.computer@ == fill_all(loaded_machine(asm_layout(lines_view(lines@))), asm_layout(lines_view(lines@)).emissions),
            r.jump_history@.len() == 0,
            !r.in_loop,
    {
        Self::from_asm_lines_checked(lines).unwrap()
    }

    /// Loads an assembly file given as its lines, as `from_asm_lines` does;
    /// `None` exactly when some line or label expression of it cannot be
    /// read without a fault (see `asm_ok`).
    pub fn from_asm_lines_checked(lines: &Vec<String>) -> (r: Option<Self>)
        ensures
            r is None <==> !asm_ok(lines_view(lines@)),
            r matches Some(e) ==> {
                &&& instrs_view(e.program@) == program_of(asm_front(lines_view(lines@)).code)
                &&& e.label_map@ == asm_front(lines_view(lines@)).labels
                &&& e.computer@ == fill_all(loaded_machine(asm_layout(lines_view(lines@))), asm_layout(lines_view(lines@)).emissions)
                &&& e.jump_history@.len() == 0
                &&& !e.in_loop
            },
    {
        let ghost lv = lines_view(lines@);
        let front = split_lines(lines);
        let ghost f = front@;
        assert(f == asm_front(lv));
        let mut program: Vec<X86Instruction> = Vec::new();
        let mut i: usize = 0;
        assert(f.code.take(0) =~= Seq::<Seq<char>>::empty());
        assert(instrs_view(program@) =~= Seq::<InstrModel>::empty());
        while i < front.code.len()
            invariant
                i <= front.code@.len(),
                f == front@,
                f == asm_front(lv),
                lv == lines_view(lines@),
                instrs_view(program@) == program_of(f.code.take(i as int)),
                forall|k: int| 0 <= k < i ==> line_ok(#[trigger] f.code[k]),
            decreases front.code@.len() - i,
        {
            proof {
                assert(f.code.take(i + 1).drop_last() =~= f.code.take(i as int));
                assert(f.code[i as int] == front.code@[i as int]@);
            }
            let ghost prev = program@;
            match parse_x86_line_checked(front.code[i].as_str()) {
                Some(Some(ins)) => {
                    program.push(ins);
                    assert(instrs_view(program@) =~= instrs_view(prev).push(program@.last()@));
                },
                Some(None) => {},
                None => {
                    assert(!line_ok(f.code[i as int]));
                    assert(!asm_ok(lv));
                    return None;
                },
            }
            i = i + 1;
        }
        assert(f.code.take(i as int) =~= f.code);
        let mut items: Vec<DataItem> = Vec::new();
        let mut j: usize = 0;
        assert(f.defs.take(0) =~= Seq::<Seq<char>>::empty());
        assert(items@.map_values(|x: DataItem| x@) =~= Seq::<ItemModel>::empty());
        while j < front.defs.len()
            invariant
                j <= front.defs@.len(),
                f == front@,
                f == asm_front(lv),
                lv == lines_view(lines@),
                items@.map_values(|x: DataItem| x@) == items_of(f.defs.take(j as int)),
                forall|k: int| 0 <= k < j ==> data_def_ok(#[trigger] f.defs[k]),
            decreases front.defs@.len() - j,
        {
            proof {
                assert(f.defs.take(j + 1).drop_last() =~= f.defs.take(j as int));
                assert(f.defs[j as int] == front.defs@[j as int]@);
            }
            if !data_def_ok_exec(front.defs[j].as_str()) {
                assert(!data_def_ok(f.defs[j as int]));
                assert(!asm_ok(lv));
                return None;
            }
            let ghost prev = items@;
            match parse_data_def(front.defs[j].as_str()) {
                Some(it) => {
                    let ghost iv = it@;
                    items.push(it);
                    assert(items@.map_values(|x: DataItem| x@) =~= prev.map_values(|x: DataItem| x@).push(iv));
                },
                None => {},
            }
            j = j + 1;
        }
        assert(f.defs.take(j as int) =~= f.defs);
        if !layout_fits_exec(&items) {
            return None;
        }
        let layout = layout_data(&items);
        let mut computer = X86Computer::new();
        let crate::layout::Layout { address: _, labels, emissions } = layout;
        computer.memory_labels = labels;
        assert(computer@ == loaded_machine(asm_layout(lv)));
        if !fill_ok_exec(&computer, &emissions) {
            return None;
        }
        fill_memory(&mut computer, &emissions);
        let parts = front;
        Some(ExecutionEngineX86 {
            computer,
            program,
            label_map: parts.labels,
            jump_history: Vec::new(),
            in_loop: false,
        })
    }
}


/// The line listing a relocation.
pub open spec fn reloc_line(r: RelocModel) -> Seq<char> {
    "addr="@ + int_text(r.addr as int) + " size="@ + int_text(r.size as int) + " expr="@ + expr_text(r.expr)
}

/// The line listing a data label.
pub open spec fn label_line(name: Seq<char>, addr: i64) -> Seq<char> {
    name + " -> "@ + int_text(addr as int)
}

impl ExecutionEngineX86 {
    /// Hands back the relocations recorded on the engine's machine and clears them.
    pub fn take_relocations(&mut self) -> (r: Vec<Relocation>)
        ensures
            relocs_view(r@) == old(self).computer@.relocations,
            final(self).computer@ == (X86Model { relocations: Seq::empty(), ..old(self).computer@ }),
            final(self).program@ == old(self).program@,
            final(self).label_map@ == old(self).label_map@,
            final(self).jump_history@ == old(self).jump_history@,
            final(self).in_loop == old(self).in_loop,
    {
        self.computer.take_relocations()
    }

    /// One line per recorded relocation: `addr=A size=S expr=E`.
    pub fn list_relocations(&self) -> (r: Vec<String>)
        ensures
            strings_view(r@) == self.computer@.relocations.map_values(|x: RelocModel| reloc_line(x)),
    {
        let ghost rs = self.computer@.relocations;
        let mut out: Vec<String> = Vec::new();
        let mut i: usize = 0;
        while i < self.computer.relocations.len()
            invariant
                i <= self.computer.relocations@.len(),
                rs == self.computer@.relocations,
                strings_view(out@) == rs.take(i as int).map_values(|x: RelocModel| reloc_line(x)),
            decreases self.computer.relocations@.len() - i,
        {
            let r = &self.computer.relocations[i];
            let mut line: Vec<char> = Vec::new();
            push_str(&mut line, "addr=");
            push_int_text(&mut line, r.addr as i128);
            push_str(&mut line, " size=");
            push_int_text(&mut line, r.size as i128);
            push_str(&mut line, " expr=");
            push_expr_text(&mut line, &r.expr);
            let ghost prev = out@;
            out.push(string_from_chars(line.as_slice()));
            proof {
                assert(rs[i as int] == r@);
                assert(rs.take(i + 1) =~= rs.take(i as int).push(rs[i as int]));
                assert(strings_view(out@) =~= strings_view(prev).push(reloc_line(r@)));
                assert(rs.take(i + 1).map_values(|x: RelocModel| reloc_line(x)) =~= rs.take(i as int).map_values(
                    |x: RelocModel| reloc_line(x),
                ).push(reloc_line(r@)));
            }
            i = i + 1;
        }
        assert(rs.take(i as int) =~= rs);
        out
    }

    /// The relocations of the engine's machine as JSON.
    pub fn export_relocations_json(&self) -> (r: String)
        ensures
            r@ == "["@ + join_commas(self.computer@.relocations.map_values(|x: RelocModel| reloc_json(x))) + "]"@,
    {
        self.computer.export_relocations_json()
    }

    /// One line per data label, in the order the labels were recorded:
    /// `name -> address`.
    pub fn dump_memory_labels(&self) -> (r: Vec<String>)
        ensures
            strings_view(r@) == self.computer@.label_order.map_values(|k: Seq<char>| label_line(k, self.computer@.labels[k])),
    {
        let labels = &self.computer.memory_labels;
        let ghost ks = labels.key_seq();
        labels.facts();
        let mut out: Vec<String> = Vec::new();
        let mut i: usize = 0;
        while i < labels.len()
            invariant
                i <= ks.len(),
                ks == labels.key_seq(),
                forall|j: int| 0 <= j < ks.len() ==> #[trigger] labels@.contains_key(ks[j]),
                strings_view(out@) == ks.take(i as int).map_values(|k: Seq<char>| label_line(k, labels@[k])),
            decreases ks.len() - i,
        {
            let k = labels.key_at(i);
            let v = labels.val_at(i);
            let mut line: Vec<char> = Vec::new();
            push_chars(&mut line, &chars_of(k.as_str()));
            push_str(&mut line, " -> ");
            push_int_text(&mut line, *v as i128);
            let ghost prev = out@;
            out.push(string_from_chars(line.as_slice()));
            proof {
                assert(ks.take(i + 1) =~= ks.take(i as int).push(ks[i as int]));
                assert(strings_view(out@) =~= strings_view(prev).push(label_line(ks[i as int], labels@[ks[i as int]])));
                assert(ks.take(i + 1).map_values(|k: Seq<char>| label_line(k, labels@[k])) =~= ks.take(i as int).map_values(
                    |k: Seq<char>| label_line(k, labels@[k]),
                ).push(label_line(ks[i as int], labels@[ks[i as int]])));
            }
            i = i + 1;
        }
        assert(ks.take(i as int) =~= ks);
        out
    }
}


/// What the split keeps true: every code line is a trimmed line that reads
/// as an instruction, every code label counts at most the code lines so
/// far, and no more code lines than lines read.
pub open spec fn front_inv(st: FrontModel) -> bool {
    &&& 0 <= st.code.len() <= st.idx
    &&& forall|i: int| 0 <= i < st.code.len() ==> #[trigger] line_model(st.code[i]) is Some
    &&& forall|l: Seq<char>| #[trigger] st.labels.contains_key(l) ==> st.labels[l] <= st.code.len()
}

proof fn lemma_front_run_inv(lines: Seq<Seq<char>>, st: FrontModel)
    requires
        lines.len() <= usize::MAX,
        st.idx <= lines.len(),
        front_inv(st),
    ensures
        front_inv(front_run(lines, st)),
    decreases lines.len() - st.idx,
{
    if 0 <= st.idx < lines.len() {
        crate::loader::lemma_front_step_advances(lines, st);
        let nx = front_step(lines, st);
        let s = trim(lines[st.idx]);
        crate::text::lemma_trim_idem(lines[st.idx]);
        if nx.code.len() > st.code.len() {
            assert(nx.code == st.code.push(s));
            assert(line_model(s) is Some);
            assert forall|i: int| 0 <= i < nx.code.len() implies #[trigger] line_model(nx.code[i]) is Some by {
                if i < st.code.len() {
                    assert(nx.code[i] == st.code[i]);
                }
            }
        }
        assert forall|l: Seq<char>| #[trigger] nx.labels.contains_key(l) implies nx.labels[l] <= nx.code.len() by {
            if !st.labels.contains_key(l) || nx.labels[l] != st.labels[l] {
                assert(nx.labels[l] == st.code.len() as usize);
            }
        }
        lemma_front_run_inv(lines, nx);
    }
}

proof fn lemma_program_of_len(code: Seq<Seq<char>>)
    requires
        forall|i: int| 0 <= i < code.len() ==> #[trigger] line_model(code[i]) is Some,
    ensures
        program_of(code).len() == code.len(),
    decreases code.len(),
{
    if code.len() > 0 {
        assert forall|i: int| 0 <= i < code.drop_last().len() implies #[trigger] line_model(code.drop_last()[i]) is Some by {
            assert(code.drop_last()[i] == code[i]);
        }
        lemma_program_of_len(code.drop_last());
        assert(line_model(code[code.len() - 1]) is Some);
    }
}

/// Every code line of a file is an instruction, so a code label's position
/// counts the instructions before it and is at most their number: a jump to
/// it lands on the instruction after the label, or past the end.
pub proof fn law_code_labels_index_instructions(lines: Seq<Seq<char>>)
    requires
        lines.len() <= usize::MAX,
    ensures
        program_of(asm_front(lines).code).len() == asm_front(lines).code.len(),
        forall|l: Seq<char>| #[trigger] asm_front(lines).labels.contains_key(l) ==> asm_front(lines).labels[l]
            <= program_of(asm_front(lines).code).len(),
{
    lemma_front_run_inv(lines, front_init());
    lemma_program_of_len(asm_front(lines).code);
}

} // verus!
