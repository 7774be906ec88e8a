use vstd::prelude::*;
use crate::resolve::{
    balanced, lemma_partners_unique, partners_of, resolution_error, symbols, Error, JumpTable,
};
use crate::tape::{decrement_memory_pointer, increment_memory_pointer, TAPE_SIZE};

verus! {

/// A cell after `+`: one more, modulo 256.
pub open spec fn cell_inc(v: u8) -> u8 {
    ((v as int + 1) % 256) as u8
}

/// A cell after `-`: one less, modulo 256.
pub open spec fn cell_dec(v: u8) -> u8 {
    ((v as int + 255) % 256) as u8
}

/// The current cell after executing `op` on value `v`; `input` is the byte
/// read by `,`, or `None` at end of input, which leaves the cell as it was.
pub open spec fn cell_after(op: char, v: u8, input: Option<u8>) -> u8 {
    if op == '+' {
        cell_inc(v)
    } else if op == '-' {
        cell_dec(v)
    } else if op == ',' {
        match input {
            Some(b) => b,
            None => v,
        }
    } else {
        v
    }
}

/// The data pointer after executing `op`.
pub open spec fn dp_after(op: char, dp: int) -> int {
    if op == '>' {
        (dp + 1) % (TAPE_SIZE as int)
    } else if op == '<' {
        (dp + TAPE_SIZE - 1) % (TAPE_SIZE as int)
    } else {
        dp
    }
}

/// The instruction pointer after executing `op` at `ip` with current cell `v`:
/// a taken jump resumes just past the partner bracket.
pub open spec fn ip_after(op: char, ip: int, v: u8, table: Seq<Option<usize>>) -> int {
    if (op == '[' && v == 0) || (op == ']' && v != 0) {
        table[ip]->0 + 1
    } else {
        ip + 1
    }
}

/// The byte emitted by executing `op` with current cell `v`.
pub open spec fn emitted(op: char, v: u8) -> Option<u8> {
    if op == '.' {
        Some(v)
    } else {
        None
    }
}

/// Everything a run has reached: the machine's pointers and tape, the input
/// not yet read, and the output emitted so far.
pub ghost struct Config {
    pub ip: int,
    pub dp: int,
    pub tape: Seq<u8>,
    pub input: Seq<u8>,
    pub output: Seq<u8>,
}

/// The configuration after one instruction. `,` takes the first byte of the
/// remaining input, or finds the end of input when none is left.
pub open spec fn next_config(program: Seq<char>, table: Seq<Option<usize>>, c: Config) -> Config {
    let op = program[c.ip];
    let v = c.tape[c.dp];
    let reads = op == ',' && c.input.len() > 0;
    let byte = if reads { Some(c.input[0]) } else { None };
    Config {
        ip: ip_after(op, c.ip, v, table),
        dp: dp_after(op, c.dp),
        tape: c.tape.update(c.dp, cell_after(op, v, byte)),
        input: if reads { c.input.drop_first() } else { c.input },
        output: match emitted(op, v) {
            Some(b) => c.output.push(b),
            None => c.output,
        },
    }
}

/// The configuration after at most `fuel` instructions, stopping early when
/// the instruction pointer leaves the program.
pub open spec fn run_from(program: Seq<char>, table: Seq<Option<usize>>, c: Config, fuel: nat) -> Config
    decreases fuel,
{
    if fuel == 0 || c.ip >= program.len() {
        c
    } else {
        run_from(program, table, next_config(program, table, c), (fuel - 1) as nat)
    }
}

/// The configuration a run starts from: pointers at zero, a zeroed tape,
/// all of `input` unread and nothing emitted.
pub open spec fn initial_config(input: Seq<u8>) -> Config {
    Config {
        ip: 0,
        dp: 0,
        tape: Seq::new(TAPE_SIZE as nat, |i: int| 0u8),
        input,
        output: Seq::empty(),
    }
}

/// Where a bounded run stopped.
pub struct RunResult {
    pub machine: Machine,
    pub output: Vec<u8>,
    pub consumed: usize,
}

impl RunResult {
    /// The configuration this result describes, for a run over `input`.
    pub open spec fn config(&self, input: Seq<u8>) -> Config {
        Config {
            ip: self.machine.ip as int,
            dp: self.machine.dp as int,
            tape: self.machine.tape@,
            input: input.skip(self.consumed as int),
            output: self.output@,
        }
    }
}

/// Runs `program` with its jump table for at most `max_steps` instructions,
/// reading `,` bytes from `input` in order.
pub fn execute(program: &Vec<char>, table: &JumpTable, input: &Vec<u8>, max_steps: usize) -> (r:
    RunResult)
    requires
        partners_of(program@, table@),
    ensures
        r.machine.wf(),
        r.consumed <= input@.len(),
        r.config(input@) == run_from(program@, table@, initial_config(input@), max_steps as nat),
{
    let mut m = Machine::new();
    let mut output: Vec<u8> = Vec::new();
    let mut consumed: usize = 0;
    let mut steps: usize = 0;
    let ghost target = run_from(program@, table@, initial_config(input@), max_steps as nat);
    proof {
        assert(input@.skip(0) =~= input@);
    }
    while steps < max_steps && m.ip < program.len()
        invariant
            partners_of(program@, table@),
            m.wf(),
            m.ip <= program@.len(),
            steps <= max_steps,
            consumed <= input@.len(),
            target == run_from(
                program@,
                table@,
                RunResult { machine: m, output, consumed }.config(input@),
                (max_steps - steps) as nat,
            ),
        decreases max_steps - steps,
    {
        let ghost before = RunResult { machine: m, output, consumed }.config(input@);
        let byte = if m.needs_input(program) && consumed < input.len() {
            consumed += 1;
            Some(input[consumed - 1])
        } else {
            None
        };
        let out = m.step(program, table, byte);
        if let Some(b) = out {
            output.push(b);
        }
        steps += 1;
        proof {
            let after = RunResult { machine: m, output, consumed }.config(input@);
            if byte is Some {
                assert(input@.skip(consumed as int) =~= input@.skip(consumed - 1).drop_first());
            }
            assert(after =~= next_config(program@, table@, before));
        }
    }
    RunResult { machine: m, output, consumed }
}

/// Resolves the brackets of `source_code`, then runs it for at most
/// `max_steps` instructions, reading `,` bytes from `input` in order. No
/// instruction runs when resolution fails.
pub fn run(source_code: &str, input: &Vec<u8>, max_steps: usize) -> (r: Result<RunResult, Error>)
    ensures
        match r {
            Ok(res) => {
                &&& balanced(source_code@)
                &&& res.machine.wf()
                &&& res.consumed <= input@.len()
                &&& forall|t: Seq<Option<usize>>|
                    #[trigger] partners_of(source_code@, t) ==> res.config(input@) == run_from(
                        source_code@,
                        t,
                        initial_config(input@),
                        max_steps as nat,
                    )
            },
            Err(Error::MismatchedBrackets(p)) => resolution_error(source_code@, p as int),
        },
{
    let program = symbols(source_code);
    match JumpTable::build(&program) {
        Ok(table) => {
            let res = execute(&program, &table, input, max_steps);
            proof {
                assert forall|t: Seq<Option<usize>>| #[trigger]
                    partners_of(source_code@, t) implies res.config(input@) == run_from(
                    source_code@,
                    t,
                    initial_config(input@),
                    max_steps as nat,
                ) by {
                    lemma_partners_unique(source_code@, t, table@);
                }
            }
            Ok(res)
        },
        Err(e) => Err(e),
    }
}

/// Execution state: instruction pointer, data pointer and tape.
pub struct Machine {
    pub ip: usize,
    pub dp: usize,
    pub tape: Vec<u8>,
}

impl Machine {
    /// The tape has its fixed size and the data pointer lies on it.
    pub open spec fn wf(&self) -> bool {
        self.tape@.len() == TAPE_SIZE && self.dp < TAPE_SIZE
    }

    /// A fresh machine: both pointers at zero, every cell zero.
    pub fn new() -> (m: Machine)
        ensures
            m.wf(),
            m.ip == 0,
            m.dp == 0,
            m.tape@ == Seq::new(TAPE_SIZE as nat, |i: int| 0u8),
    {
        let mut tape: Vec<u8> = Vec::new();
        let mut i: usize = 0;
        while i < TAPE_SIZE
            invariant
                i <= TAPE_SIZE,
                tape@ == Seq::new(i as nat, |k: int| 0u8),
            decreases TAPE_SIZE - i,
        {
            tape.push(0);
            i += 1;
        }
        Machine { ip: 0, dp: 0, tape }
    }

    /// The value of the current cell.
    pub fn cell(&self) -> (r: u8)
        requires
            self.wf(),
        ensures
            r == self.tape@[self.dp as int],
    {
        self.tape[self.dp]
    }

    /// Whether the program has run to its end.
    pub fn is_halted(&self, program: &Vec<char>) -> (r: bool)
        ensures
            r == (self.ip >= program@.len()),
    {
        self.ip >= program.len()
    }

    /// Whether the next instruction reads a byte of input.
    pub fn needs_input(&self, program: &Vec<char>) -> (r: bool)
        ensures
            r == (self.ip < program@.len() && program@[self.ip as int] == ','),
    {
        self.ip < program.len() && program[self.ip] == ','
    }

    /// Executes the instruction at the instruction pointer. `input` is the
    /// byte that a `,` reads (`None` at end of input); the result is the byte
    /// that a `.` emits.
    pub fn step(&mut self, program: &Vec<char>, table: &JumpTable, input: Option<u8>) -> (out:
        Option<u8>)
        requires
            old(self).wf(),
            partners_of(program@, table@),
            old(self).ip < program@.len(),
        ensures
            final(self).wf(),
            final(self).ip <= program@.len(),
            ({
                let op = program@[old(self).ip as int];
                let v = old(self).tape@[old(self).dp as int];
                &&& final(self).ip == ip_after(op, old(self).ip as int, v, table@)
                &&& final(self).dp == dp_after(op, old(self).dp as int)
                &&& final(self).tape@ == old(self).tape@.update(
                    old(self).dp as int,
                    cell_after(op, v, input),
                )
                &&& out == emitted(op, v)
            }),
    {
        let n = program.len();
        let op = program[self.ip];
        let v = self.tape[self.dp];
        let mut out: Option<u8> = None;
        let mut next = self.ip + 1;
        if op == '>' {
            self.dp = increment_memory_pointer(self.dp);
        } else if op == '<' {
            self.dp = decrement_memory_pointer(self.dp);
        } else if op == '+' {
            let nv: u8 = if v == 255 { 0 } else { v + 1 };
            self.tape.set(self.dp, nv);
        } else if op == '-' {
            let nv: u8 = if v == 0 { 255 } else { v - 1 };
            self.tape.set(self.dp, nv);
        } else if op == '.' {
            out = Some(v);
        } else if op == ',' {
            if let Some(b) = input {
                self.tape.set(self.dp, b);
            }
        } else if (op == '[' && v == 0) || (op == ']' && v != 0) {
            proof {
                assert(table@[self.ip as int] is Some);
            }
            let target = table.partner(self.ip).unwrap();
            next = target + 1;
        }
        self.ip = next;
        proof {
            if op != '+' && op != '-' && !(op == ',' && input is Some) {
                assert(self.tape@ =~= old(self).tape@.update(
                    old(self).dp as int,
                    cell_after(op, v, input),
                ));
            }
        }
        out
    }
}

} // verus!
