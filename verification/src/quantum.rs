//! The PipeWire quantum: what can be picked, what is applied, and what is read back.

use vstd::prelude::*;
use vstd::utf8::{decode_utf8, valid_utf8};

use crate::config::{owned, texts};
use crate::number::{decimal, decimal_text, law_decimal_reads_back, parse_u32, parsed_u32};
use crate::text::{chars_of, last_word, lossy_utf8, text_of_bytes, word_last, CharClass};

verus! {

/// The sizes that can be picked.
pub const QUANTUM_SIZES: [u32; 7] = [32, 64, 128, 256, 512, 1024, 2048];

/// The size where none was picked.
pub const DEFAULT_QUANTUM: u32 = 512;

/// The row of that size in the list of sizes.
pub const DEFAULT_INDEX: i32 = 4;

/// The number at the end of what `pw-metadata` prints: of `clock.force-quantum = 512`
/// as of a bare `512`.
pub open spec fn number_at_end(printed: Seq<char>) -> Option<u32> {
    match last_word(printed) {
        Some(word) => parsed_u32(word),
        None => None,
    }
}

pub fn quantum_in(printed: &str) -> (r: Option<u32>)
    ensures
        r == number_at_end(printed@),
{
    match word_last(chars_of(printed).as_slice()) {
        Some(word) => parse_u32(word),
        None => None,
    }
}

/// The quantum in force, from what `pw-metadata` printed; none where it could not be run.
pub fn read_current_quantum(stdout: Option<&[u8]>) -> (r: Option<u32>)
    ensures
        r == match stdout {
            Some(out) => number_at_end(lossy_utf8(out@)),
            None => None,
        },
        stdout is Some && valid_utf8(stdout->0@) ==> r == number_at_end(decode_utf8(stdout->0@)),
{
    match stdout {
        Some(out) => quantum_in(text_of_bytes(out).as_str()),
        None => None,
    }
}

/// The sizes as the panel lists them.
pub fn size_labels() -> (r: Vec<String>)
    ensures
        r@.len() == QUANTUM_SIZES@.len(),
        forall|i: int|
            0 <= i < r@.len() ==> (#[trigger] r@[i])@ == decimal(QUANTUM_SIZES@[i] as nat),
        forall|i: int|
            0 <= i < r@.len() ==> parsed_u32((#[trigger] r@[i])@) == Some(QUANTUM_SIZES@[i]),
{
    let sizes = QUANTUM_SIZES;
    let mut out: Vec<String> = Vec::new();
    let mut i: usize = 0;
    while i < 7
        invariant
            i <= 7,
            sizes@ == QUANTUM_SIZES@,
            out@.len() == i,
            forall|k: int|
                0 <= k < i ==> (#[trigger] out@[k])@ == decimal(QUANTUM_SIZES@[k] as nat),
        decreases 7 - i,
    {
        out.push(decimal_text(sizes[i] as u64));
        i += 1;
    }
    assert forall|k: int| 0 <= k < out@.len() implies parsed_u32((#[trigger] out@[k])@) == Some(
        QUANTUM_SIZES@[k],
    ) by {
        law_decimal_reads_back(QUANTUM_SIZES@[k]);
    }
    out
}

/// The row of a size in the list.
pub fn quantum_index(size: u32) -> (r: Option<usize>)
    ensures
        match r {
            Some(i) => i < QUANTUM_SIZES@.len() && QUANTUM_SIZES@[i as int] == size,
            None => !QUANTUM_SIZES@.contains(size),
        },
{
    let sizes = QUANTUM_SIZES;
    let mut i: usize = 0;
    while i < 7
        invariant
            i <= 7,
            sizes@ == QUANTUM_SIZES@,
            forall|k: int| 0 <= k < i ==> #[trigger] QUANTUM_SIZES@[k] != size,
        decreases 7 - i,
    {
        if sizes[i] == size {
            return Some(i);
        }
        i += 1;
    }
    None
}

/// The size in a row of the list; the default for a row that is not there, and for none.
pub open spec fn size_at(row: Option<i32>) -> u32 {
    let i = match row {
        Some(i) => i,
        None => DEFAULT_INDEX,
    };
    if 0 <= i < QUANTUM_SIZES@.len() {
        QUANTUM_SIZES@[i as int]
    } else {
        DEFAULT_QUANTUM
    }
}

pub fn picked_size(row: Option<i32>) -> (r: u32)
    ensures
        r == size_at(row),
        row matches Some(i) ==> 0 <= i < QUANTUM_SIZES@.len() ==> r == QUANTUM_SIZES@[i as int],
        (row matches Some(i) ==> i < 0 || i >= QUANTUM_SIZES@.len()) ==> r == 512,
{
    let i: i32 = match row {
        Some(i) => i,
        None => DEFAULT_INDEX,
    };
    let sizes = QUANTUM_SIZES;
    if 0 <= i && i < 7 {
        sizes[i as usize]
    } else {
        DEFAULT_QUANTUM
    }
}

/// The arguments of `pw-metadata` that force a quantum.
pub open spec fn force_command(size: nat) -> Seq<Seq<char>> {
    seq!["-n"@, "settings"@, "0"@, "clock.force-quantum"@, decimal(size)]
}

/// How `pw-metadata` ended.
pub enum Applied {
    Success,
    /// It ran and failed, with a status.
    Exited(String),
    /// It could not be run, for a reason.
    Failed(String),
}

/// What is logged of it.
pub open spec fn applied_text(size: nat, applied: Applied) -> Seq<char> {
    match applied {
        Applied::Success => "[quantum] clock.force-quantum -> "@ + decimal(size)
            + " (scsynth picks it up on next boot)"@,
        Applied::Exited(status) => "[quantum] pw-metadata exited with "@ + status@,
        Applied::Failed(error) => "[quantum] pw-metadata failed: "@ + error@,
    }
}

pub fn applied_log(size: u32, applied: &Applied) -> (r: String)
    ensures
        r@ == applied_text(size as nat, *applied),
        match applied {
            Applied::Success => r@ == "[quantum] clock.force-quantum -> "@ + decimal(size as nat)
                + " (scsynth picks it up on next boot)"@,
            Applied::Exited(status) => r@ == "[quantum] pw-metadata exited with "@ + status@,
            Applied::Failed(error) => r@ == "[quantum] pw-metadata failed: "@ + error@,
        },
{
    match applied {
        Applied::Success => {
            let mut out = "[quantum] clock.force-quantum -> ".to_owned();
            out.append(decimal_text(size as u64).as_str());
            out.append(" (scsynth picks it up on next boot)");
            out
        },
        Applied::Exited(status) => {
            let mut out = "[quantum] pw-metadata exited with ".to_owned();
            out.append(status.as_str());
            out
        },
        Applied::Failed(error) => {
            let mut out = "[quantum] pw-metadata failed: ".to_owned();
            out.append(error.as_str());
            out
        },
    }
}

/// The quantum that the next scsynth is booted with.
#[derive(Clone, Copy, Debug, PartialEq, Eq, Structural)]
pub struct Quantum {
    pub size: u32,
}

/// What to run and to log for a quantum that is applied.
pub struct ApplyStep {
    pub log: String,
    pub args: Vec<String>,
}

impl Quantum {
    pub fn new() -> (r: Quantum)
        ensures
            r.size == DEFAULT_QUANTUM,
    {
        Quantum { size: DEFAULT_QUANTUM }
    }

    /// Takes over the quantum in force, where it is one that can be picked, and gives its
    /// row.
    pub fn restore(&mut self, in_force: Option<u32>) -> (row: Option<usize>)
        ensures
            match row {
                Some(i) => i < QUANTUM_SIZES@.len() && in_force == Some(QUANTUM_SIZES@[i as int])
                    && final(self).size == QUANTUM_SIZES@[i as int],
                None => *final(self) == *old(self) && (in_force matches Some(q)
                    ==> !QUANTUM_SIZES@.contains(q)),
            },
    {
        match in_force {
            Some(q) => {
                let row = quantum_index(q);
                if row.is_some() {
                    self.size = q;
                }
                row
            },
            None => None,
        }
    }

    /// Applies a quantum: the graph moves at once, scsynth with its next boot.
    pub fn apply_quantum(&mut self, size: u32) -> (step: ApplyStep)
        ensures
            final(self).size == size,
            step.log@ == "$ pw-metadata -n settings 0 clock.force-quantum "@ + decimal(size as nat),
            texts(step.args@) == force_command(size as nat),
            step.args@.len() == 5,
            step.args@[0]@ == "-n"@,
            step.args@[1]@ == "settings"@,
            step.args@[2]@ == "0"@,
            step.args@[3]@ == "clock.force-quantum"@,
            parsed_u32(step.args@[4]@) == Some(final(self).size),
            step.args@[4]@ == decimal(size as nat),
    {
        proof {
            law_decimal_reads_back(size);
        }
        self.size = size;
        let text = decimal_text(size as u64);
        let mut log = "$ pw-metadata -n settings 0 clock.force-quantum ".to_owned();
        log.append(text.as_str());
        let args = owned(&["-n", "settings", "0", "clock.force-quantum", text.as_str()]);
        assert(args@[0]@ == "-n"@ && args@[1]@ == "settings"@ && args@[2]@ == "0"@);
        assert(args@[3]@ == "clock.force-quantum"@ && args@[4]@ == text@);
        ApplyStep { log, args }
    }
}

// ---- laws -------------------------------------------------------------------------

/// The size of a row is a size of that row: what `quantum_index` finds, `size_at` gives.
pub proof fn law_rows_and_sizes_agree(i: int)
    requires
        0 <= i < QUANTUM_SIZES@.len(),
    ensures
        size_at(Some(i as i32)) == QUANTUM_SIZES@[i],
        size_at(None) == DEFAULT_QUANTUM,
        forall|j: int|
            0 <= j < QUANTUM_SIZES@.len() && QUANTUM_SIZES@[j] == QUANTUM_SIZES@[i] ==> i == j,
{
}

/// Whatever row is picked, the size is one that can be picked.
pub proof fn law_picked_size_is_listed(row: Option<i32>)
    ensures
        QUANTUM_SIZES@.contains(size_at(row)),
{
    assert(QUANTUM_SIZES@[4] == DEFAULT_QUANTUM);
}

/// A quantum that was forced is read back: bare, and behind any text and a space; with
/// an end of line behind it, and without.
pub proof fn law_forced_quantum_reads_back(head: Seq<char>, size: u32)
    ensures
        number_at_end(decimal(size as nat)) == Some(size),
        number_at_end(head + " "@ + decimal(size as nat)) == Some(size),
        number_at_end(decimal(size as nat).push('\n')) == Some(size),
        number_at_end((head + " "@ + decimal(size as nat)).push('\n')) == Some(size),
{
    let d = decimal(size as nat);
    law_decimal_reads_back(size);
    lemma_last_word_of_numeral(Seq::empty(), size as nat);
    assert(Seq::<char>::empty() + d == d);
    reveal_strlit(" ");
    let h = head + " "@;
    assert(h.last() == ' ');
    lemma_last_word_of_numeral(h, size as nat);
    assert(d.push('\n').drop_last() == d);
    assert((h + d).push('\n').drop_last() == h + d);
}

proof fn lemma_last_word_of_numeral(head: Seq<char>, n: nat)
    requires
        head.len() > 0 ==> head.last() == ' ',
    ensures
        last_word(head + decimal(n)) == Some(decimal(n)),
{
    crate::number::lemma_decimal_digits(n);
    let d = decimal(n);
    let t = head + d;
    assert(t.last() == d.last());
    assert(crate::text::ascii_digit(d[d.len() - 1]));
    assert(!CharClass::WhiteSpace.has(t.last()));
    lemma_tail_of_digits(head, d);
}

proof fn lemma_tail_of_digits(head: Seq<char>, d: Seq<char>)
    requires
        head.len() > 0 ==> head.last() == ' ',
        crate::number::all_digits(d),
    ensures
        crate::text::tail_outside(head + d, CharClass::WhiteSpace) == d,
    decreases d.len(),
{
    let t = head + d;
    if d.len() == 0 {
        assert(t == head);
    } else {
        assert(t.last() == d.last());
        assert(crate::text::ascii_digit(d[d.len() - 1]));
        assert(t.drop_last() == head + d.drop_last());
        assert forall|i: int| 0 <= i < d.drop_last().len() implies crate::text::ascii_digit(
            #[trigger] d.drop_last()[i],
        ) by {
            assert(crate::text::ascii_digit(d[i]));
        }
        lemma_tail_of_digits(head, d.drop_last());
        assert(d.drop_last().push(d.last()) == d);
    }
}

/// The quantum that is forced on the graph is the one that is kept for the next boot: the
/// last argument reads back as it, behind the four that name the setting.
pub proof fn law_forced_is_what_is_kept(size: u32)
    ensures
        force_command(size as nat).len() == 5,
        force_command(size as nat)[0] == "-n"@,
        force_command(size as nat)[1] == "settings"@,
        force_command(size as nat)[2] == "0"@,
        force_command(size as nat)[3] == "clock.force-quantum"@,
        parsed_u32(force_command(size as nat)[4]) == Some(size),
        crate::config::scsynth_command(size as nat)[8] == force_command(size as nat)[4],
{
    law_decimal_reads_back(size);
}

/// The last number that is printed is the one read, whatever stands before it and whatever
/// white space behind it; and where no word is printed, none is.
pub proof fn law_last_number_is_read(u: Seq<char>, size: u32, v: Seq<char>)
    requires
        u.len() > 0 ==> CharClass::WhiteSpace.has(u.last()),
        forall|i: int| 0 <= i < v.len() ==> CharClass::WhiteSpace.has(#[trigger] v[i]),
    ensures
        number_at_end(u + decimal(size as nat) + v) == Some(size),
        number_at_end(v) is None,
{
    let d = decimal(size as nat);
    crate::number::lemma_decimal_digits(size as nat);
    law_decimal_reads_back(size);
    assert forall|i: int| 0 <= i < d.len() implies !CharClass::WhiteSpace.has(#[trigger] d[i]) by {
        assert(crate::text::ascii_digit(d[i]));
    }
    crate::text::law_last_word(u, d, v);
}

} // verus!
