//! Splitting an assembly file into code and data: instruction lines, code
//! labels, and the data definitions (directives and data labels) that the
//! layout later turns into bytes.
use vstd::prelude::*;
use crate::parser::{first_ws_range, line_opcode, seq_is};
use crate::common::strings_view;
use crate::strmap::StrMap;
use crate::data::{second_word, second_word_range};
use crate::text::{
    chars_of, contains_sub, contains_sub_exec, ends_with, starts_with, starts_with_range,
    string_of_range, sub_vec, tokens, tokens_range, trim, trim_char, trim_char_range, trim_range,
};

verus! {

pub open spec fn lines_view(v: Seq<String>) -> Seq<Seq<char>> {
    v.map_values(|s: String| s@)
}

/// Where the split of the lines stands: the next line, the current section,
/// the data definitions and instruction lines so far, and the code labels
/// with the index of the instruction they stand before.
pub struct FrontModel {
    pub idx: int,
    pub section: Option<Seq<char>>,
    pub defs: Seq<Seq<char>>,
    pub code: Seq<Seq<char>>,
    pub labels: Map<Seq<char>, usize>,
}

pub open spec fn front_init() -> FrontModel {
    FrontModel { idx: 0, section: None, defs: Seq::empty(), code: Seq::empty(), labels: Map::empty() }
}

/// From line `j` on: the directive lines (trimmed) before the first line
/// that is neither blank nor a directive, and how many lines that covers.
pub open spec fn consume(lines: Seq<Seq<char>>, j: int) -> (Seq<Seq<char>>, nat)
    decreases lines.len() - j,
{
    if j < 0 || j >= lines.len() {
        (Seq::empty(), 0)
    } else {
        let u = trim(lines[j]);
        if u.len() == 0 {
            let (m, c) = consume(lines, j + 1);
            (m, c + 1)
        } else if starts_with(u, "."@) {
            let (m, c) = consume(lines, j + 1);
            (seq![u] + m, c + 1)
        } else {
            (Seq::empty(), 0)
        }
    }
}

/// How many blank lines follow from line `k` on.
pub open spec fn blank_run(lines: Seq<Seq<char>>, k: int) -> nat
    decreases lines.len() - k,
{
    if k < 0 || k >= lines.len() {
        0
    } else if trim(lines[k]).len() == 0 {
        1 + blank_run(lines, k + 1)
    } else {
        0
    }
}

/// The directives that make a label before them a data label.
pub open spec fn is_data_keyword(kw: Seq<char>) -> bool {
    kw == ".byte"@ || kw == ".long"@ || kw == ".quad"@ || kw == ".asciz"@ || kw == ".string"@ || kw
        == ".ascii"@ || kw == ".word"@ || kw == ".hword"@ || kw == ".align"@ || kw == ".balign"@ || kw
        == ".globl"@ || kw == ".global"@ || kw == ".private_extern"@
}

/// The first word of a line, with commas also separating words.
pub open spec fn first_word(t: Seq<char>) -> Seq<char> {
    let ts = tokens(t, true);
    if ts.len() > 0 {
        ts[0]
    } else {
        Seq::empty()
    }
}

/// Appends `s` unless it is already the last definition.
pub open spec fn push_unless_last(defs: Seq<Seq<char>>, s: Seq<char>) -> Seq<Seq<char>> {
    if defs.len() > 0 && defs.last() == s {
        defs
    } else {
        defs.push(s)
    }
}

/// Whether a section name is a data section.
pub open spec fn is_data_section(sec: Seq<char>) -> bool {
    contains_sub(sec, "rodata"@) || contains_sub(sec, "data"@)
}

/// The section a `.section`, `.rodata` or `.data` line selects.
pub open spec fn section_of(s: Seq<char>, current: Option<Seq<char>>) -> Option<Seq<char>> {
    if starts_with(s, ".section"@) {
        match second_word(s) {
            Some(w) => Some(trim_char(trim_char(trim(w), ','), '"')),
            None => current,
        }
    } else {
        Some(line_opcode(s))
    }
}

/// One line of the split.
pub open spec fn front_step(lines: Seq<Seq<char>>, st: FrontModel) -> FrontModel {
    let s = trim(lines[st.idx]);
    let i1 = st.idx + 1;
    if s.len() == 0 {
        FrontModel { idx: i1, ..st }
    } else if starts_with(s, ".section"@) || starts_with(s, ".rodata"@) || starts_with(s, ".data"@) {
        FrontModel { idx: i1, section: section_of(s, st.section), defs: st.defs.push(s), ..st }
    } else if ends_with(s, ":"@) {
        if st.section is Some && is_data_section(st.section->0) {
            let (more, c) = consume(lines, i1);
            FrontModel { idx: i1 + c, defs: push_unless_last(st.defs, s) + more, ..st }
        } else {
            let k = i1 + blank_run(lines, i1);
            if k < lines.len() && starts_with(trim(lines[k]), "."@) && is_data_keyword(first_word(trim(lines[k]))) {
                let (more, c) = consume(lines, k);
                FrontModel { idx: k + c, defs: push_unless_last(st.defs, s) + more, ..st }
            } else {
                FrontModel { idx: i1, labels: st.labels.insert(s.drop_last(), st.code.len() as usize), ..st }
            }
        }
    } else if starts_with(s, "."@) {
        FrontModel { idx: i1, defs: st.defs.push(s), ..st }
    } else {
        FrontModel { idx: i1, code: st.code.push(s), ..st }
    }
}

pub proof fn lemma_consume_bound(lines: Seq<Seq<char>>, j: int)
    requires
        0 <= j <= lines.len(),
    ensures
        j + consume(lines, j).1 <= lines.len(),
    decreases lines.len() - j,
{
    if j < lines.len() {
        lemma_consume_bound(lines, j + 1);
    }
}

pub proof fn lemma_blank_run_bound(lines: Seq<Seq<char>>, k: int)
    requires
        0 <= k <= lines.len(),
    ensures
        k + blank_run(lines, k) <= lines.len(),
    decreases lines.len() - k,
{
    if k < lines.len() {
        lemma_blank_run_bound(lines, k + 1);
    }
}

pub proof fn lemma_front_step_advances(lines: Seq<Seq<char>>, st: FrontModel)
    requires
        0 <= st.idx < lines.len(),
    ensures
        st.idx < front_step(lines, st).idx <= lines.len(),
{
    lemma_consume_bound(lines, st.idx + 1);
    lemma_blank_run_bound(lines, st.idx + 1);
    let k = st.idx + 1 + blank_run(lines, st.idx + 1);
    if k < lines.len() {
        lemma_consume_bound(lines, k);
    }
}

/// The split of all lines from `st` on.
pub open spec fn front_run(lines: Seq<Seq<char>>, st: FrontModel) -> FrontModel
    decreases lines.len() - st.idx,
{
    if st.idx < 0 || st.idx >= lines.len() {
        st
    } else {
        proof {
            lemma_front_step_advances(lines, st);
        }
        front_run(lines, front_step(lines, st))
    }
}

/// The split of an assembly file: data definitions, instruction lines
/// (trimmed, in order) and code labels.
pub struct FrontEnd {
    pub idx: usize,
    pub section: Option<String>,
    pub defs: Vec<String>,
    pub code: Vec<String>,
    pub labels: StrMap<usize>,
}

pub open spec fn opt_string_view(o: Option<String>) -> Option<Seq<char>> {
    match o {
        Some(s) => Some(s@),
        None => None,
    }
}

impl FrontEnd {
    pub open spec fn view(&self) -> FrontModel {
        FrontModel {
            idx: self.idx as int,
            section: opt_string_view(self.section),
            defs: strings_view(self.defs@),
            code: strings_view(self.code@),
            labels: self.labels@,
        }
    }
}

fn trimmed_line(lines: &Vec<String>, i: usize) -> (r: Vec<char>)
    requires
        i < lines@.len(),
    ensures
        r@ == trim(lines@[i as int]@),
{
    let v = chars_of(lines[i].as_str());
    assert(v@.subrange(0, v@.len() as int) =~= v@);
    let (a, b) = trim_range(&v, 0, v.len());
    sub_vec(&v, a, b)
}

fn string_of(v: &Vec<char>) -> (r: String)
    ensures
        r@ == v@,
{
    crate::text::string_from_chars(v.as_slice())
}

fn push_string(out: &mut Vec<String>, s: String)
    ensures
        strings_view(final(out)@) == strings_view(old(out)@).push(s@),
{
    let ghost prev = out@;
    out.push(s);
    assert(strings_view(out@) =~= strings_view(prev).push(s@));
}

fn consume_exec(lines: &Vec<String>, j: usize) -> (r: (Vec<String>, usize))
    requires
        j <= lines@.len(),
    ensures
        strings_view(r.0@) == consume(lines_view(lines@), j as int).0,
        r.1 == consume(lines_view(lines@), j as int).1,
        j + r.1 <= lines@.len(),
{
    let ghost lv = lines_view(lines@);
    let mut out: Vec<String> = Vec::new();
    let mut k = j;
    proof {
        lemma_consume_bound(lv, j as int);
    }
    while k < lines.len()
        invariant
            j <= k <= lines@.len(),
            lv == lines_view(lines@),
            consume(lv, j as int) == (strings_view(out@) + consume(lv, k as int).0, ((k - j) + consume(lv, k as int).1) as nat),
        decreases lines@.len() - k,
    {
        let u = trimmed_line(lines, k);
        assert(lv[k as int] == lines@[k as int]@);
        if u.len() == 0 {
            k = k + 1;
        } else if u[0] == '.' {
            proof {
                reveal_strlit(".");
                assert(u@.take(1) =~= "."@);
            }
            let ghost prev = strings_view(out@);
            push_string(&mut out, string_of(&u));
            assert(strings_view(out@) + consume(lv, k + 1).0 =~= prev + consume(lv, k as int).0);
            k = k + 1;
        } else {
            proof {
                reveal_strlit(".");
                assert(!starts_with(u@, "."@)) by {
                    if starts_with(u@, "."@) {
                        assert(u@.take(1)[0] == u@[0]);
                    }
                }
                assert(consume(lv, k as int).0 =~= Seq::<Seq<char>>::empty());
                assert(strings_view(out@) + Seq::<Seq<char>>::empty() =~= strings_view(out@));
            }
            return (out, k - j);
        }
    }
    assert(strings_view(out@) + Seq::<Seq<char>>::empty() =~= strings_view(out@));
    (out, k - j)
}

fn blank_run_exec(lines: &Vec<String>, k: usize) -> (r: usize)
    requires
        k <= lines@.len(),
    ensures
        r == blank_run(lines_view(lines@), k as int),
        k + r <= lines@.len(),
{
    let ghost lv = lines_view(lines@);
    let mut i = k;
    while i < lines.len()
        invariant
            k <= i <= lines@.len(),
            lv == lines_view(lines@),
            blank_run(lv, k as int) == (i - k) + blank_run(lv, i as int),
        decreases lines@.len() - i,
    {
        let u = trimmed_line(lines, i);
        assert(lv[i as int] == lines@[i as int]@);
        if u.len() != 0 {
            return i - k;
        }
        i = i + 1;
    }
    i - k
}

fn first_word_exec(t: &Vec<char>) -> (r: Vec<char>)
    ensures
        r@ == first_word(t@),
{
    assert(t@.subrange(0, t@.len() as int) =~= t@);
    let toks = tokens_range(t, 0, t.len(), true);
    if toks.len() > 0 {
        let (x, y) = toks[0];
        sub_vec(t, x, y)
    } else {
        Vec::new()
    }
}

fn is_data_keyword_exec(w: &Vec<char>) -> (r: bool)
    ensures
        r == is_data_keyword(w@),
{
    let n = w.len();
    assert(w@.subrange(0, n as int) =~= w@);
    seq_is(w, 0, n, ".byte") || seq_is(w, 0, n, ".long") || seq_is(w, 0, n, ".quad") || seq_is(w, 0, n, ".asciz")
        || seq_is(w, 0, n, ".string") || seq_is(w, 0, n, ".ascii") || seq_is(w, 0, n, ".word") || seq_is(w, 0, n, ".hword")
        || seq_is(w, 0, n, ".align") || seq_is(w, 0, n, ".balign") || seq_is(w, 0, n, ".globl") || seq_is(w, 0, n, ".global")
        || seq_is(w, 0, n, ".private_extern")
}

fn section_of_exec(s: &Vec<char>, current: &Option<String>) -> (r: Option<String>)
    ensures
        opt_string_view(r) == section_of(s@, opt_string_view(*current)),
{
    let n = s.len();
    assert(s@.subrange(0, n as int) =~= s@);
    if starts_with_range(s, 0, n, ".section") {
        match second_word_range(s, 0, n) {
            Some((x, y)) => {
                let (p, q) = trim_range(s, x, y);
                let (p2, q2) = trim_char_range(s, p, q, ',');
                let (p3, q3) = trim_char_range(s, p2, q2, '"');
                Some(string_of_range(s, p3, q3))
            },
            None => match current {
                Some(c) => Some(c.clone()),
                None => None,
            },
        }
    } else {
        let k = first_ws_range(s, 0, n);
        assert(line_opcode(s@) =~= s@.subrange(0, k as int));
        Some(string_of_range(s, 0, k))
    }
}

fn is_data_section_exec(sec: &String) -> (r: bool)
    ensures
        r == is_data_section(sec@),
{
    let v = chars_of(sec.as_str());
    let p1 = chars_of("rodata");
    let p2 = chars_of("data");
    contains_sub_exec(&v, &p1) || contains_sub_exec(&v, &p2)
}

fn push_defs(defs: &mut Vec<String>, more: Vec<String>)
    ensures
        strings_view(final(defs)@) == strings_view(old(defs)@) + strings_view(more@),
{
    let ghost o = strings_view(defs@);
    let mut i: usize = 0;
    while i < more.len()
        invariant
            i <= more@.len(),
            strings_view(defs@) == o + strings_view(more@).take(i as int),
        decreases more@.len() - i,
    {
        push_string(defs, more[i].clone());
        i = i + 1;
        assert(strings_view(defs@) =~= o + strings_view(more@).take(i as int));
    }
    assert(strings_view(more@).take(i as int) =~= strings_view(more@));
}

fn push_unless_last_exec(defs: &mut Vec<String>, s: &Vec<char>)
    ensures
        strings_view(final(defs)@) == push_unless_last(strings_view(old(defs)@), s@),
{
    let n = defs.len();
    if n > 0 {
        let last = chars_of(defs[n - 1].as_str());
        assert(strings_view(defs@).last() == defs@[n - 1]@);
        let same = last.len() == s.len() && {
            assert(last@.subrange(0, last@.len() as int) =~= last@);
            seq_is(s, 0, s.len(), defs[n - 1].as_str())
        };
        if same {
            assert(s@.subrange(0, s@.len() as int) =~= s@);
            return;
        }
        assert(s@.subrange(0, s@.len() as int) =~= s@);
    }
    push_string(defs, string_of(s));
}

impl FrontEnd {
    fn step(&mut self, lines: &Vec<String>)
        requires
            old(self).idx < lines.len(),
        ensures
            final(self)@ == front_step(lines_view(lines@), old(self)@),
    {
        let ghost lv = lines_view(lines@);
        let s = trimmed_line(lines, self.idx);
        assert(lv[self.idx as int] == lines@[self.idx as int]@);
        let n = s.len();
        assert(s@.subrange(0, n as int) =~= s@);
        let i1 = self.idx + 1;
        if n == 0 {
            self.idx = i1;
            return;
        }
        if starts_with_range(&s, 0, n, ".section") || starts_with_range(&s, 0, n, ".rodata") || starts_with_range(&s, 0, n, ".data") {
            let sec = section_of_exec(&s, &self.section);
            self.section = sec;
            push_string(&mut self.defs, string_of(&s));
            self.idx = i1;
            return;
        }
        proof {
            reveal_strlit(":");
            reveal_strlit(".");
        }
        if s[n - 1] == ':' {
            assert(s@.skip(s@.len() - 1) =~= ":"@);
            let in_data = match &self.section {
                Some(sec) => is_data_section_exec(sec),
                None => false,
            };
            if in_data {
                let (more, c) = consume_exec(lines, i1);
                push_unless_last_exec(&mut self.defs, &s);
                push_defs(&mut self.defs, more);
                self.idx = i1 + c;
                return;
            }
            let k = i1 + blank_run_exec(lines, i1);
            if k < lines.len() {
                let t = trimmed_line(lines, k);
                assert(lv[k as int] == lines@[k as int]@);
                if t.len() > 0 && t[0] == '.' {
                    assert(t@.take(1) =~= "."@);
                    let w = first_word_exec(&t);
                    if is_data_keyword_exec(&w) {
                        proof {
                            lemma_consume_bound(lv, k as int);
                        }
                        let (more, c) = consume_exec(lines, k);
                        push_unless_last_exec(&mut self.defs, &s);
                        push_defs(&mut self.defs, more);
                        self.idx = k + c;
                        return;
                    }
                } else {
                    assert(!starts_with(t@, "."@)) by {
                        if starts_with(t@, "."@) {
                            assert(t@.take(1)[0] == t@[0]);
                        }
                    }
                }
            }
            assert(s@.drop_last() =~= s@.subrange(0, n - 1));
            let label = string_of_range(&s, 0, n - 1);
            let pc = self.code.len();
            self.labels.insert(label, pc);
            self.idx = i1;
            return;
        }
        assert(!ends_with(s@, ":"@)) by {
            if ends_with(s@, ":"@) {
                assert(s@.skip(s@.len() - 1)[0] == s@.last());
            }
        }
        if s[0] == '.' {
            assert(s@.take(1) =~= "."@);
            push_string(&mut self.defs, string_of(&s));
            self.idx = i1;
            return;
        }
        assert(!starts_with(s@, "."@)) by {
            if starts_with(s@, "."@) {
                assert(s@.take(1)[0] == s@[0]);
            }
        }
        push_string(&mut self.code, string_of(&s));
        self.idx = i1;
    }
}

/// Splits the lines of an assembly file into data definitions, instruction
/// lines and code labels. A label followed (after blank lines) by a data
/// directive, or standing in a data section, is a data label: it and the
/// directives after it go to the data definitions.
pub fn split_lines(lines: &Vec<String>) -> (r: FrontEnd)
    ensures
        r@ == front_run(lines_view(lines@), front_init()),
{
    let ghost lv = lines_view(lines@);
    let mut st = FrontEnd { idx: 0, section: None, defs: Vec::new(), code: Vec::new(), labels: StrMap::new() };
    assert(st@ =~= front_init()) by {
        assert(strings_view(st.defs@) =~= Seq::<Seq<char>>::empty());
        assert(strings_view(st.code@) =~= Seq::<Seq<char>>::empty());
    }
    while st.idx < lines.len()
        invariant
            st.idx <= lines@.len(),
            lv == lines_view(lines@),
            front_run(lv, st@) == front_run(lv, front_init()),
        decreases lines@.len() - st.idx,
    {
        proof {
            lemma_front_step_advances(lv, st@);
        }
        st.step(lines);
    }
    st
}

} // verus!
