//! MIDI devices, read from what `aconnect -i -l` and `aconnect -o -l` print:
//!
//! ```text
//! client 14: 'Midi Through' [type=kernel]
//!     0  'Midi Through Port-0'
//!     Connecting to: 128:0
//! ```

use vstd::prelude::*;

use crate::number::all_digits;
use crate::order::{is_text_less, text_less};
use crate::text::{
    after_first, before_first, chars_of, contains, has_text, law_cut, law_strip, lines, lossy_utf8, match_at, stands_at,
    same, slice_texts, split_first, split_lines, strip, strip_space, text_of, text_of_bytes, trim,
    trim_class, CharClass,
};
use vstd::slice::slice_subrange;
use vstd::utf8::{decode_utf8, valid_utf8};

verus! {

/// One port of one client.
#[derive(Debug, Clone)]
pub struct MidiDevice {
    /// Client and port, as in `14:0`.
    pub id: String,
    /// The client's name and the port's, as in `Midi Through Midi Through Port-0`.
    pub name: String,
    /// `in`, `out` or `in+out`.
    pub direction: String,
}

/// A client's number and name.
pub type Client = (Seq<char>, Seq<char>);

/// A port's id and name.
pub type Port = (Seq<char>, Seq<char>);

/// `s` without the white space around it, the quotes inside that and the white space
/// inside those.
pub open spec fn unquoted(s: Seq<char>) -> Seq<char> {
    trim(trim_class(trim(s), CharClass::Quote))
}

pub open spec fn is_client_line(line: Seq<char>) -> bool {
    match_at(line, "client "@, 0)
}

/// The client that a client line names. Client 0 is the kernel's own and no device.
pub open spec fn client_of(line: Seq<char>) -> Option<Client> {
    let rest = line.skip("client "@.len() as int);
    let num = trim(before_first(rest, CharClass::Only(':')));
    if num == "0"@ {
        None
    } else {
        let tail = after_first(rest, CharClass::Only(':'));
        Some((num, unquoted(before_first(tail, CharClass::Only('[')))))
    }
}

/// The port that a line below a client describes: a numeral, white space and a name.
pub open spec fn port_of(client: Client, line: Seq<char>) -> Option<Port> {
    let t = trim(line);
    let port = before_first(t, CharClass::WhiteSpace);
    let name = unquoted(after_first(t, CharClass::WhiteSpace));
    if name.len() > 0 && port.len() > 0 && all_digits(port) {
        Some((client.0 + ":"@ + port, client.1 + " "@ + name))
    } else {
        None
    }
}

/// The client that the lines end under: that of the last client line.
pub open spec fn client_after(ls: Seq<Seq<char>>) -> Option<Client>
    decreases ls.len(),
{
    if ls.len() == 0 {
        None
    } else if is_client_line(ls.last()) {
        client_of(ls.last())
    } else {
        client_after(ls.drop_last())
    }
}

/// The ports that the lines describe, in their order.
pub open spec fn ports(ls: Seq<Seq<char>>) -> Seq<Port>
    decreases ls.len(),
{
    if ls.len() == 0 {
        Seq::empty()
    } else {
        let before = ports(ls.drop_last());
        match client_after(ls.drop_last()) {
            Some(client) if !is_client_line(ls.last()) => match port_of(client, ls.last()) {
                Some(port) => before.push(port),
                None => before,
            },
            _ => before,
        }
    }
}

/// A port's id, and its name and direction.
pub type Table = Map<Seq<char>, (Seq<char>, Seq<char>)>;

/// A port that is new comes in with direction `dir`. One that is known keeps its name,
/// and has `dir` added to its direction where that does not hold it yet.
pub open spec fn with_port(t: Table, port: Port, dir: Seq<char>) -> Table {
    if !t.contains_key(port.0) {
        t.insert(port.0, (port.1, dir))
    } else if contains(t[port.0].1, dir) {
        t
    } else {
        t.insert(port.0, (t[port.0].0, t[port.0].1 + "+"@ + dir))
    }
}

pub open spec fn with_ports(t: Table, ps: Seq<Port>, dir: Seq<char>) -> Table
    decreases ps.len(),
{
    if ps.len() == 0 {
        t
    } else {
        with_port(with_ports(t, ps.drop_last(), dir), ps.last(), dir)
    }
}

/// The devices stand in the order of their ids, and no id occurs twice.
pub open spec fn by_id(devs: Seq<MidiDevice>) -> bool {
    forall|i: int, j: int|
        0 <= i < j < devs.len() ==> text_less((#[trigger] devs[i]).id@, (#[trigger] devs[j]).id@)
}

pub open spec fn has_id(devs: Seq<MidiDevice>, id: Seq<char>) -> bool {
    exists|i: int| 0 <= i < devs.len() && (#[trigger] devs[i]).id@ == id
}

/// What the devices say of each id.
pub open spec fn table(devs: Seq<MidiDevice>) -> Table {
    Map::new(
        |id: Seq<char>| has_id(devs, id),
        |id: Seq<char>|
            {
                let i = choose|i: int| 0 <= i < devs.len() && (#[trigger] devs[i]).id@ == id;
                (devs[i].name@, devs[i].direction@)
            },
    )
}

// ---- reading ------------------------------------------------------------------

fn unquote<'a>(s: &'a [char]) -> (r: &'a [char])
    ensures
        r@ == unquoted(s@),
{
    strip_space(strip(strip_space(s), CharClass::Quote))
}

/// Reads a client line behind its first word.
fn read_client(rest: &[char]) -> (r: Option<(String, String)>)
    ensures
        forall|line: Seq<char>| line.skip("client "@.len() as int) == rest@ ==> match r {
            Some(c) => #[trigger] client_of(line) == Some((c.0@, c.1@)),
            None => client_of(line) is None,
        },
{
    let (num, tail) = split_first(rest, CharClass::Only(':'));
    let num = strip_space(num);
    let zero = chars_of("0");
    if same(num, zero.as_slice()) {
        None
    } else {
        let (name, _) = split_first(tail, CharClass::Only('['));
        Some((text_of(num), text_of(unquote(name))))
    }
}

fn is_numeral(s: &[char]) -> (r: bool)
    ensures
        r == all_digits(s@),
{
    let mut i: usize = 0;
    while i < s.len()
        invariant
            i <= s@.len(),
            forall|k: int| 0 <= k < i ==> crate::text::ascii_digit(#[trigger] s@[k]),
        decreases s@.len() - i,
    {
        if !('0' <= s[i] && s[i] <= '9') {
            assert(!crate::text::ascii_digit(s@[i as int]));
            return false;
        }
        i += 1;
    }
    true
}

/// Reads a line below a client.
fn read_port(client: &(String, String), line: &[char]) -> (r: Option<(String, String)>)
    ensures
        match r {
            Some(p) => port_of((client.0@, client.1@), line@) == Some((p.0@, p.1@)),
            None => port_of((client.0@, client.1@), line@) is None,
        },
{
    let (port, name) = split_first(strip_space(line), CharClass::WhiteSpace);
    let name = unquote(name);
    if name.len() == 0 || port.len() == 0 || !is_numeral(port) {
        return None;
    }
    let mut id = client.0.clone();
    id.append(":");
    id.append(text_of(port).as_str());
    let mut full = client.1.clone();
    full.append(" ");
    full.append(text_of(name).as_str());
    Some((id, full))
}

proof fn lemma_table_at(devs: Seq<MidiDevice>, i: int)
    requires
        by_id(devs),
        0 <= i < devs.len(),
    ensures
        table(devs).contains_key(devs[i].id@),
        table(devs)[devs[i].id@] == (devs[i].name@, devs[i].direction@),
{
    let id = devs[i].id@;
    assert(has_id(devs, id));
    let j = choose|j: int| 0 <= j < devs.len() && (#[trigger] devs[j]).id@ == id;
    crate::order::lemma_text_less_irreflexive(id);
    assert(i == j);
}

proof fn lemma_table_keys(devs: Seq<MidiDevice>, t: Table)
    requires
        by_id(devs),
        forall|id: Seq<char>| #[trigger] t.contains_key(id) <==> has_id(devs, id),
        forall|i: int|
            0 <= i < devs.len() ==> t[(#[trigger] devs[i]).id@] == (
                devs[i].name@,
                devs[i].direction@,
            ),
    ensures
        table(devs) == t,
{
    assert forall|id: Seq<char>| #[trigger] t.contains_key(id) implies table(devs)[id]
        == t[id] by {
        let i = choose|i: int| 0 <= i < devs.len() && (#[trigger] devs[i]).id@ == id;
        lemma_table_at(devs, i);
    }
    assert(table(devs) =~= t);
}

/// Another direction for one device.
proof fn lemma_table_update(a: Seq<MidiDevice>, b: Seq<MidiDevice>, p: int)
    requires
        by_id(a),
        a.len() == b.len(),
        0 <= p < a.len(),
        forall|i: int| 0 <= i < a.len() && i != p ==> #[trigger] b[i] == a[i],
        b[p].id == a[p].id,
        b[p].name == a[p].name,
    ensures
        by_id(b),
        table(b) == table(a).insert(a[p].id@, (a[p].name@, b[p].direction@)),
{
    let t = table(a).insert(a[p].id@, (a[p].name@, b[p].direction@));
    assert forall|i: int, j: int| 0 <= i < j < b.len() implies text_less(
        (#[trigger] b[i]).id@,
        (#[trigger] b[j]).id@,
    ) by {
        assert(text_less(a[i].id@, a[j].id@));
    }
    assert forall|id: Seq<char>| #[trigger] t.contains_key(id) <==> has_id(b, id) by {
        if t.contains_key(id) {
            if id != a[p].id@ {
                assert(has_id(a, id));
                let i = choose|i: int| 0 <= i < a.len() && (#[trigger] a[i]).id@ == id;
                assert(b[i].id@ == id);
            } else {
                assert(b[p].id@ == id);
            }
        }
        if has_id(b, id) {
            let i = choose|i: int| 0 <= i < b.len() && (#[trigger] b[i]).id@ == id;
            assert(a[i].id@ == id);
            assert(has_id(a, id));
        }
    }
    assert forall|i: int| 0 <= i < b.len() implies t[(#[trigger] b[i]).id@] == (
        b[i].name@,
        b[i].direction@,
    ) by {
        lemma_table_at(a, i);
        crate::order::lemma_text_less_irreflexive(a[i].id@);
        if i < p {
            assert(text_less(a[i].id@, a[p].id@));
        } else if p < i {
            assert(text_less(a[p].id@, a[i].id@));
        }
    }
    lemma_table_keys(b, t);
}

/// A device with a new id, put where its id belongs.
proof fn lemma_table_insert(a: Seq<MidiDevice>, p: int, d: MidiDevice)
    requires
        by_id(a),
        0 <= p <= a.len(),
        forall|i: int| 0 <= i < p ==> text_less((#[trigger] a[i]).id@, d.id@),
        p < a.len() ==> text_less(d.id@, a[p].id@),
    ensures
        by_id(a.insert(p, d)),
        !table(a).contains_key(d.id@),
        table(a.insert(p, d)) == table(a).insert(d.id@, (d.name@, d.direction@)),
{
    let b = a.insert(p, d);
    let t = table(a).insert(d.id@, (d.name@, d.direction@));
    assert forall|i: int| p <= i < a.len() implies text_less(d.id@, (#[trigger] a[i]).id@) by {
        if p < i {
            assert(text_less(a[p].id@, a[i].id@));
            crate::order::lemma_text_less_transitive(d.id@, a[p].id@, a[i].id@);
        }
    }
    crate::order::lemma_text_less_irreflexive(d.id@);
    assert(!has_id(a, d.id@));
    assert forall|i: int, j: int| 0 <= i < j < b.len() implies text_less(
        (#[trigger] b[i]).id@,
        (#[trigger] b[j]).id@,
    ) by {
        let x = if i < p {
            i
        } else {
            i - 1
        };
        let y = if j < p {
            j
        } else {
            j - 1
        };
        if j == p {
            assert(b[i] == a[i]);
        } else if i == p {
            assert(b[j] == a[j - 1]);
        } else {
            assert(b[i] == a[x] && b[j] == a[y]);
        }
    }
    assert forall|id: Seq<char>| #[trigger] t.contains_key(id) <==> has_id(b, id) by {
        if t.contains_key(id) {
            if id != d.id@ {
                assert(has_id(a, id));
                let i = choose|i: int| 0 <= i < a.len() && (#[trigger] a[i]).id@ == id;
                assert(b[if i < p { i } else { i + 1 }].id@ == id);
            } else {
                assert(b[p].id@ == id);
            }
        }
        if has_id(b, id) {
            let i = choose|i: int| 0 <= i < b.len() && (#[trigger] b[i]).id@ == id;
            if i != p {
                assert(a[if i < p { i } else { i - 1 }].id@ == id);
                assert(has_id(a, id));
            }
        }
    }
    assert forall|i: int| 0 <= i < b.len() implies t[(#[trigger] b[i]).id@] == (
        b[i].name@,
        b[i].direction@,
    ) by {
        if i != p {
            let k = if i < p {
                i
            } else {
                i - 1
            };
            assert(b[i] == a[k]);
            lemma_table_at(a, k);
            assert(has_id(a, a[k].id@));
        }
    }
    lemma_table_keys(b, t);
}

/// Adds one port to the devices.
fn add_port(into: &mut Vec<MidiDevice>, id: String, name: String, dir: &str)
    requires
        by_id(old(into)@),
    ensures
        by_id(final(into)@),
        table(final(into)@) == with_port(table(old(into)@), (id@, name@), dir@),
{
    let ghost before = into@;
    let key = chars_of(id.as_str());
    let mut p: usize = 0;
    while p < into.len() && is_text_less(chars_of(into[p].id.as_str()).as_slice(), key.as_slice())
        invariant
            p <= into@.len(),
            into@ == before,
            key@ == id@,
            forall|i: int| 0 <= i < p ==> text_less((#[trigger] into@[i]).id@, id@),
        decreases into@.len() - p,
    {
        p += 1;
    }
    if p < into.len() && same(chars_of(into[p].id.as_str()).as_slice(), key.as_slice()) {
        proof {
            lemma_table_at(before, p as int);
        }
        let held = chars_of(into[p].direction.as_str());
        if !has_text(held.as_slice(), chars_of(dir).as_slice()) {
            into[p].direction.append("+");
            into[p].direction.append(dir);
            proof {
                lemma_table_update(before, into@, p as int);
            }
        }
    } else {
        let device = MidiDevice { id, name, direction: dir.to_owned() };
        proof {
            if p < before.len() {
                crate::order::lemma_text_less_total(before[p as int].id@, id@);
            }
            lemma_table_insert(before, p as int, device);
        }
        into.insert(p, device);
    }
}

/// Reads one listing of `aconnect` and adds its ports, as ports of direction `dir`, to
/// the devices.
pub fn collect(text: &str, dir: &str, into: &mut Vec<MidiDevice>)
    requires
        by_id(old(into)@),
    ensures
        by_id(final(into)@),
        table(final(into)@) == with_ports(table(old(into)@), ports(lines(text@)), dir@),
{
    let ghost start = table(into@);
    let ghost ls = lines(text@);
    let chars = chars_of(text);
    let rows = split_lines(chars.as_slice());
    let word = chars_of("client ");
    let mut client: Option<(String, String)> = None;
    let mut i: usize = 0;
    assert(ls.take(0) == Seq::<Seq<char>>::empty());
    while i < rows.len()
        invariant
            i <= rows@.len(),
            slice_texts(rows@) == ls,
            word@ == "client "@,
            by_id(into@),
            match client {
                Some(c) => client_after(ls.take(i as int)) == Some((c.0@, c.1@)),
                None => client_after(ls.take(i as int)) is None,
            },
            table(into@) == with_ports(start, ports(ls.take(i as int)), dir@),
        decreases rows@.len() - i,
    {
        let line = rows[i];
        let ghost head = ls.take(i as int);
        let ghost next = ls.take(i + 1);
        assert(next.drop_last() == head);
        assert(line@ == slice_texts(rows@)[i as int]);
        assert(next.last() == line@);
        if stands_at(line, word.as_slice(), 0) {
            let rest = slice_subrange(line, word.len(), line.len());
            assert(line@.skip("client "@.len() as int) == rest@);
            client = read_client(rest);
            assert(ports(next) == ports(head));
        } else {
            if let Some(c) = &client {
                if let Some((id, name)) = read_port(c, line) {
                    let ghost port = (id@, name@);
                    add_port(into, id, name, dir);
                    assert(ports(next) == ports(head).push(port));
                    assert(ports(next).drop_last() == ports(head));
                } else {
                    assert(ports(next) == ports(head));
                }
            } else {
                assert(ports(next) == ports(head));
            }
        }
        i += 1;
    }
    assert(ls.take(i as int) == ls);
}

// ---- both listings --------------------------------------------------------------

pub open spec fn listed(ps: Seq<Port>, id: Seq<char>) -> bool {
    exists|i: int| 0 <= i < ps.len() && (#[trigger] ps[i]).0 == id
}

/// The name of the first port with that id.
pub open spec fn first_name(ps: Seq<Port>, id: Seq<char>) -> Seq<char>
    decreases ps.len(),
{
    if ps.len() == 0 {
        Seq::empty()
    } else if listed(ps.drop_last(), id) {
        first_name(ps.drop_last(), id)
    } else {
        ps.last().1
    }
}

/// The ports of the two listings: one that is in either is a device, named as where it
/// is listed first, and its direction says in which it is.
pub open spec fn device_table(ins: Seq<Port>, outs: Seq<Port>) -> Table {
    Map::new(
        |id: Seq<char>| listed(ins, id) || listed(outs, id),
        |id: Seq<char>|
            {
                if !listed(outs, id) {
                    (first_name(ins, id), "in"@)
                } else if listed(ins, id) {
                    (first_name(ins, id), "in+out"@)
                } else {
                    (first_name(outs, id), "out"@)
                }
            },
    )
}

proof fn lemma_listed_last(ps: Seq<Port>, id: Seq<char>)
    requires
        ps.len() > 0,
    ensures
        listed(ps, id) <==> listed(ps.drop_last(), id) || ps.last().0 == id,
{
    if listed(ps, id) {
        let i = choose|i: int| 0 <= i < ps.len() && (#[trigger] ps[i]).0 == id;
        if i < ps.len() - 1 {
            assert(ps.drop_last()[i].0 == id);
        }
    }
    if listed(ps.drop_last(), id) {
        let i = choose|i: int|
            0 <= i < ps.drop_last().len() && (#[trigger] ps.drop_last()[i]).0 == id;
        assert(ps[i].0 == id);
    }
}

proof fn lemma_direction_words()
    ensures
        contains("in"@, "in"@),
        contains("out"@, "out"@),
        contains("in+out"@, "out"@),
        !contains("in"@, "out"@),
        "in"@ + "+"@ + "out"@ == "in+out"@,
{
    reveal_strlit("in");
    reveal_strlit("out");
    reveal_strlit("+");
    reveal_strlit("in+out");
    assert("in"@.subrange(0, 2) == "in"@);
    assert(match_at("in"@, "in"@, 0));
    assert("out"@.subrange(0, 3) == "out"@);
    assert(match_at("out"@, "out"@, 0));
    assert("in+out"@.subrange(3, 6) == "out"@);
    assert(match_at("in+out"@, "out"@, 3));
    assert("in"@ + "+"@ + "out"@ == "in+out"@);
}

proof fn lemma_inputs(ins: Seq<Port>)
    ensures
        with_ports(Map::empty(), ins, "in"@) == device_table(ins, Seq::empty()),
    decreases ins.len(),
{
    lemma_direction_words();
    let none = Seq::<Port>::empty();
    assert(forall|id: Seq<char>| !listed(none, id));
    if ins.len() > 0 {
        lemma_inputs(ins.drop_last());
        assert forall|id: Seq<char>|
            #![trigger listed(ins, id)]
            #![trigger listed(ins.drop_last(), id)]
            listed(ins, id) <==> listed(ins.drop_last(), id) || ins.last().0 == id by {
            lemma_listed_last(ins, id);
        }
    }
    assert(with_ports(Map::empty(), ins, "in"@) =~= device_table(ins, none));
}

proof fn lemma_outputs(ins: Seq<Port>, outs: Seq<Port>)
    ensures
        with_ports(device_table(ins, Seq::empty()), outs, "out"@) == device_table(ins, outs),
    decreases outs.len(),
{
    lemma_direction_words();
    let none = Seq::<Port>::empty();
    assert(forall|id: Seq<char>| !listed(none, id));
    if outs.len() > 0 {
        lemma_outputs(ins, outs.drop_last());
        assert forall|id: Seq<char>|
            #![trigger listed(outs, id)]
            #![trigger listed(outs.drop_last(), id)]
            listed(outs, id) <==> listed(outs.drop_last(), id) || outs.last().0 == id by {
            lemma_listed_last(outs, id);
        }
    } else {
        assert(outs == none);
    }
    assert(with_ports(device_table(ins, none), outs, "out"@) =~= device_table(ins, outs));
}

/// The devices of an input and an output listing, in the order of their ids.
pub fn devices_of(inputs: &str, outputs: &str) -> (r: Vec<MidiDevice>)
    ensures
        by_id(r@),
        table(r@) == device_table(ports(lines(inputs@)), ports(lines(outputs@))),
        forall|i: int, j: int|
            0 <= i < j < r@.len() ==> text_less((#[trigger] r@[i]).id@, (#[trigger] r@[j]).id@),
        forall|i: int|
            0 <= i < r@.len() ==> table(r@)[(#[trigger] r@[i]).id@] == (
                r@[i].name@,
                r@[i].direction@,
            ),
{
    let mut devices: Vec<MidiDevice> = Vec::new();
    assert(table(devices@) =~= Map::empty());
    collect(inputs, "in", &mut devices);
    collect(outputs, "out", &mut devices);
    proof {
        lemma_inputs(ports(lines(inputs@)));
        lemma_outputs(ports(lines(inputs@)), ports(lines(outputs@)));
        assert forall|i: int| 0 <= i < devices@.len() implies table(devices@)[(
        #[trigger] devices@[i]).id@] == (devices@[i].name@, devices@[i].direction@) by {
            lemma_table_at(devices@, i);
        }
    }
    devices
}

/// The text of what a command printed; none where it could not be run.
pub open spec fn printed(stdout: Option<&[u8]>) -> Seq<char> {
    match stdout {
        Some(bytes) => lossy_utf8(bytes@),
        None => Seq::empty(),
    }
}

/// The devices, from what `aconnect -i -l` and `aconnect -o -l` printed. What is UTF-8 is
/// read as the text that it encodes. A command that could not be run lists nothing.
pub fn list_devices(inputs: Option<&[u8]>, outputs: Option<&[u8]>) -> (r: Vec<MidiDevice>)
    ensures
        by_id(r@),
        table(r@) == device_table(ports(lines(printed(inputs))), ports(lines(printed(outputs)))),
        forall|i: int, j: int|
            0 <= i < j < r@.len() ==> text_less((#[trigger] r@[i]).id@, (#[trigger] r@[j]).id@),
        forall|i: int|
            0 <= i < r@.len() ==> table(r@)[(#[trigger] r@[i]).id@] == (
                r@[i].name@,
                r@[i].direction@,
            ),
        inputs is Some && valid_utf8(inputs->0@) ==> printed(inputs) == decode_utf8(inputs->0@),
        outputs is Some && valid_utf8(outputs->0@) ==> printed(outputs) == decode_utf8(
            outputs->0@,
        ),
{
    let ins = match inputs {
        Some(bytes) => text_of_bytes(bytes),
        None => String::new(),
    };
    let outs = match outputs {
        Some(bytes) => text_of_bytes(bytes),
        None => String::new(),
    };
    devices_of(ins.as_str(), outs.as_str())
}

// ---- laws -------------------------------------------------------------------------

/// A line about a connection is never taken for a port.
pub proof fn law_connection_is_no_port(client: Client, line: Seq<char>)
    requires
        match_at(trim(line), "Connecting to:"@, 0),
    ensures
        port_of(client, line) is None,
{
    reveal_strlit("Connecting to:");
    let t = trim(line);
    let port = before_first(t, CharClass::WhiteSpace);
    assert(t[0] == t.subrange(0, "Connecting to:"@.len() as int)[0]);
    assert(t[0] == 'C');
    crate::text::lemma_first_in_is_first(t, CharClass::WhiteSpace);
    if port.len() > 0 {
        assert(port[0] == 'C');
        assert(!crate::text::ascii_digit(port[0]));
    }
}

/// The kernel's own client 0 lists no device: no port of a listing has an id of it.
pub proof fn law_client_zero_is_no_device(ls: Seq<Seq<char>>, i: int, number: Seq<char>)
    requires
        0 <= i < ports(ls).len(),
    ensures
        ports(ls)[i].0 != "0:"@ + number,
    decreases ls.len(),
{
    let head = ls.drop_last();
    if i < ports(head).len() {
        law_client_zero_is_no_device(head, i, number);
    } else {
        lemma_client_number(head);
        let num = number_after(head);
        let id = ports(ls)[i].0;
        let port = before_first(trim(ls.last()), CharClass::WhiteSpace);
        assert(id == num + ":"@ + port);
        reveal_strlit(":");
        reveal_strlit("0");
        reveal_strlit("0:");
        if id == "0:"@ + number {
            assert(id[num.len() as int] == ':');
            assert(id[0] == '0' && id[1] == ':');
            if num.len() == 0 {
                assert(id[0] == ':');
            } else if num.len() == 1 {
                assert(num[0] == id[0]);
                assert(num == "0"@);
            } else {
                assert(num[1] == id[1]);
            }
        }
    }
}

/// The number of the client that the lines end under.
spec fn number_after(ls: Seq<Seq<char>>) -> Seq<char> {
    match client_after(ls) {
        Some(client) => client.0,
        None => Seq::empty(),
    }
}

/// A client's number is not 0 and holds no colon.
proof fn lemma_client_number(ls: Seq<Seq<char>>)
    requires
        client_after(ls) is Some,
    ensures
        number_after(ls) != "0"@,
        forall|k: int|
            0 <= k < number_after(ls).len() ==> (#[trigger] number_after(ls)[k]) != ':',
    decreases ls.len(),
{
    if is_client_line(ls.last()) {
        let rest = ls.last().skip("client "@.len() as int);
        let colon = CharClass::Only(':');
        let field = before_first(rest, colon);
        crate::text::lemma_first_in_is_first(rest, colon);
        crate::text::lemma_trim_is_part(field, CharClass::WhiteSpace);
        let (a, b) = choose|a: int, b: int|
            0 <= a <= b <= field.len() && trim(field) == #[trigger] field.subrange(a, b);
        assert forall|k: int| 0 <= k < trim(field).len() implies (#[trigger] trim(field)[k])
            != ':' by {
            assert(trim(field)[k] == rest[a + k]);
            assert(!colon.has(rest[a + k]));
        }
    } else {
        lemma_client_number(ls.drop_last());
    }
}

/// A name is read without its quotes and without the white space around and inside them, and
/// is kept whole otherwise.
pub proof fn law_quotes_are_taken_off(
    u: Seq<char>,
    open: char,
    v: Seq<char>,
    name: Seq<char>,
    w: Seq<char>,
    close: char,
    x: Seq<char>,
)
    requires
        forall|i: int| 0 <= i < u.len() ==> CharClass::WhiteSpace.has(#[trigger] u[i]),
        forall|i: int| 0 <= i < v.len() ==> CharClass::WhiteSpace.has(#[trigger] v[i]),
        forall|i: int| 0 <= i < w.len() ==> CharClass::WhiteSpace.has(#[trigger] w[i]),
        forall|i: int| 0 <= i < x.len() ==> CharClass::WhiteSpace.has(#[trigger] x[i]),
        CharClass::Quote.has(open),
        CharClass::Quote.has(close),
        name.len() > 0,
        !CharClass::WhiteSpace.has(name[0]) && !CharClass::WhiteSpace.has(name.last()),
        !CharClass::Quote.has(name[0]) && !CharClass::Quote.has(name.last()),
    ensures
        unquoted(u + (seq![open] + (v + name + w) + seq![close]) + x) == name,
        unquoted(u + name + x) == name,
{
    let mid = v + name + w;
    let core = seq![open] + mid + seq![close];
    assert(core[0] == open && core.last() == close);
    assert(mid[0] == if v.len() > 0 {
        v[0]
    } else {
        name[0]
    });
    assert(mid.last() == if w.len() > 0 {
        w[w.len() - 1]
    } else {
        name.last()
    });
    law_strip(u, core, x, CharClass::WhiteSpace);
    law_strip(seq![open], mid, seq![close], CharClass::Quote);
    law_strip(v, name, w, CharClass::WhiteSpace);
    let none = Seq::<char>::empty();
    law_strip(u, name, x, CharClass::WhiteSpace);
    law_strip(none, name, none, CharClass::Quote);
    law_strip(none, name, none, CharClass::WhiteSpace);
    assert(none + name + none == name);
}

/// A client line gives the number before the colon and the name between that and the bracket,
/// and none for the number 0.
pub proof fn law_client_line_is_read(num: Seq<char>, field: Seq<char>, rest: Seq<char>)
    requires
        forall|i: int| 0 <= i < num.len() ==> #[trigger] num[i] != ':',
        num.len() > 0,
        !CharClass::WhiteSpace.has(num[0]) && !CharClass::WhiteSpace.has(num.last()),
        forall|i: int| 0 <= i < field.len() ==> #[trigger] field[i] != '[',
    ensures
        is_client_line("client "@ + (num + seq![':'] + (field + seq!['['] + rest))),
        num != seq!['0'] ==> client_of(
            "client "@ + (num + seq![':'] + (field + seq!['['] + rest)),
        ) == Some((num, unquoted(field))),
        num == seq!['0'] ==> client_of(
            "client "@ + (num + seq![':'] + (field + seq!['['] + rest)),
        ) is None,
{
    reveal_strlit("client ");
    reveal_strlit("0");
    assert("0"@ == seq!['0']);
    let tail = field + seq!['['] + rest;
    let body = num + seq![':'] + tail;
    let line = "client "@ + body;
    assert(line.subrange(0, "client "@.len() as int) == "client "@);
    assert(line.skip("client "@.len() as int) == body);
    assert forall|i: int| 0 <= i < num.len() implies !CharClass::Only(':').has(
        #[trigger] num[i],
    ) by {
        assert(num[i] != ':');
    }
    assert forall|i: int| 0 <= i < field.len() implies !CharClass::Only('[').has(
        #[trigger] field[i],
    ) by {
        assert(field[i] != '[');
    }
    law_cut(num, ':', tail, CharClass::Only(':'));
    law_cut(field, '[', rest, CharClass::Only('['));
    let none = Seq::<char>::empty();
    law_strip(none, num, none, CharClass::WhiteSpace);
    assert(none + num + none == num);
}

/// A port line gives the client's number and the port's with a colon between them, and the
/// client's name and the port's with a space between them, whatever white space is around;
/// and a line whose first word is no numeral gives none.
pub proof fn law_port_line_is_read(
    client: Client,
    u: Seq<char>,
    port: Seq<char>,
    space: char,
    field: Seq<char>,
    v: Seq<char>,
)
    requires
        forall|i: int| 0 <= i < u.len() ==> CharClass::WhiteSpace.has(#[trigger] u[i]),
        forall|i: int| 0 <= i < v.len() ==> CharClass::WhiteSpace.has(#[trigger] v[i]),
        CharClass::WhiteSpace.has(space),
        port.len() > 0,
        forall|i: int| 0 <= i < port.len() ==> !CharClass::WhiteSpace.has(#[trigger] port[i]),
        field.len() > 0,
        !CharClass::WhiteSpace.has(field.last()),
    ensures
        (forall|i: int| 0 <= i < port.len() ==> '0' <= #[trigger] port[i] <= '9') && unquoted(
            field,
        ).len() > 0 ==> port_of(client, u + (port + seq![space] + field) + v) == Some(
            (client.0 + seq![':'] + port, client.1 + seq![' '] + unquoted(field)),
        ),
        !(forall|i: int| 0 <= i < port.len() ==> '0' <= #[trigger] port[i] <= '9') ==> port_of(
            client,
            u + (port + seq![space] + field) + v,
        ) is None,
{
    reveal_strlit(":");
    reveal_strlit(" ");
    assert(":"@ == seq![':'] && " "@ == seq![' ']);
    let core = port + seq![space] + field;
    assert(core[0] == port[0] && core.last() == field.last());
    law_strip(u, core, v, CharClass::WhiteSpace);
    law_cut(port, space, field, CharClass::WhiteSpace);
    if all_digits(port) {
        assert forall|i: int| 0 <= i < port.len() implies '0' <= #[trigger] port[i] <= '9' by {
            assert(crate::text::ascii_digit(port[i]));
        }
    } else {
        let i = choose|i: int| 0 <= i < port.len() && !crate::text::ascii_digit(#[trigger] port[i]);
        assert(!('0' <= port[i] <= '9'));
    }
}

/// Lines are read one by one: a client line names the client of the lines below it and is no
/// port itself; any other line is a port of the client that it stands under, where it
/// describes one, and leaves the client as it is.
pub proof fn law_lines_are_read_in_turn(ls: Seq<Seq<char>>, line: Seq<char>)
    ensures
        is_client_line(line) ==> client_after(ls.push(line)) == client_of(line) && ports(
            ls.push(line),
        ) == ports(ls),
        !is_client_line(line) ==> client_after(ls.push(line)) == client_after(ls),
        !is_client_line(line) && client_after(ls) is None ==> ports(ls.push(line)) == ports(ls),
        !is_client_line(line) && client_after(ls) is Some ==> ports(ls.push(line)) == match port_of(
            client_after(ls)->0,
            line,
        ) {
            Some(port) => ports(ls).push(port),
            None => ports(ls),
        },
        client_after(Seq::empty()) is None,
        ports(Seq::empty()) == Seq::<Port>::empty(),
{
    assert(ls.push(line).drop_last() == ls);
    assert(ls.push(line).last() == line);
}

/// A port that is listed is a device, and nothing else is. Its direction tells the listings
/// that it is in; its name is that of its first place in the inputs, or in the outputs where
/// it is not among the inputs.
pub proof fn law_listed_ports_are_devices(ins: Seq<Port>, outs: Seq<Port>, id: Seq<char>)
    ensures
        device_table(ins, outs).contains_key(id) <==> (exists|i: int|
            0 <= i < ins.len() && (#[trigger] ins[i]).0 == id) || (exists|i: int|
            0 <= i < outs.len() && (#[trigger] outs[i]).0 == id),
        listed(ins, id) && !listed(outs, id) ==> device_table(ins, outs)[id] == (
            first_name(ins, id),
            "in"@,
        ),
        !listed(ins, id) && listed(outs, id) ==> device_table(ins, outs)[id] == (
            first_name(outs, id),
            "out"@,
        ),
        listed(ins, id) && listed(outs, id) ==> device_table(ins, outs)[id] == (
            first_name(ins, id),
            "in+out"@,
        ),
{
}

/// The name of a port is the one of its first place in a listing.
pub proof fn law_first_name_counts(ps: Seq<Port>, i: int)
    requires
        0 <= i < ps.len(),
        forall|k: int| 0 <= k < i ==> (#[trigger] ps[k]).0 != ps[i].0,
    ensures
        first_name(ps, ps[i].0) == ps[i].1,
    decreases ps.len(),
{
    let id = ps[i].0;
    let head = ps.drop_last();
    if i < head.len() {
        assert(head[i].0 == id);
        assert(listed(head, id));
        assert forall|k: int| 0 <= k < i implies (#[trigger] head[k]).0 != head[i].0 by {
            assert(ps[k].0 != ps[i].0);
        }
        law_first_name_counts(head, i);
    } else {
        assert forall|k: int| 0 <= k < head.len() implies (#[trigger] head[k]).0 != id by {
            assert(ps[k].0 != ps[i].0);
        }
        assert(!listed(head, id));
    }
}

/// A port that is added is there; one that was there keeps its name and gets the direction
/// behind the one it has, with a plus sign between them, unless it has it. No other port
/// changes.
pub proof fn law_port_is_added(t: Table, port: Port, dir: Seq<char>, other: Seq<char>)
    ensures
        with_port(t, port, dir).contains_key(port.0),
        !t.contains_key(port.0) ==> with_port(t, port, dir)[port.0] == (port.1, dir),
        t.contains_key(port.0) ==> with_port(t, port, dir)[port.0].0 == t[port.0].0,
        t.contains_key(port.0) && contains(t[port.0].1, dir) ==> with_port(t, port, dir) == t,
        t.contains_key(port.0) && !contains(t[port.0].1, dir) ==> with_port(
            t,
            port,
            dir,
        )[port.0].1 == t[port.0].1 + seq!['+'] + dir,
        other != port.0 ==> (with_port(t, port, dir).contains_key(other) <==> t.contains_key(other)),
        other != port.0 && t.contains_key(other) ==> with_port(t, port, dir)[other] == t[other],
{
    reveal_strlit("+");
    assert("+"@ == seq!['+']);
}

/// Devices in the order of their ids have each id once, and the table says of it what the
/// device does.
pub proof fn law_table_is_the_devices(devs: Seq<MidiDevice>, i: int, j: int)
    requires
        by_id(devs),
        0 <= i < j < devs.len(),
    ensures
        text_less(devs[i].id@, devs[j].id@),
        devs[i].id@ != devs[j].id@,
        table(devs)[devs[i].id@] == (devs[i].name@, devs[i].direction@),
        table(devs)[devs[j].id@] == (devs[j].name@, devs[j].direction@),
        forall|id: Seq<char>| #[trigger]
            table(devs).contains_key(id) <==> exists|k: int|
                0 <= k < devs.len() && (#[trigger] devs[k]).id@ == id,
{
    lemma_table_at(devs, i);
    lemma_table_at(devs, j);
    crate::order::lemma_text_less_irreflexive(devs[i].id@);
}

/// A line that starts with `client ` is a client line, and no other is. One without a bracket
/// names its client by all behind the colon, and one without a colon leaves it without a name.
pub proof fn law_bare_client_lines(line: Seq<char>, num: Seq<char>, field: Seq<char>)
    requires
        forall|i: int| 0 <= i < num.len() ==> #[trigger] num[i] != ':',
        num.len() > 0,
        !CharClass::WhiteSpace.has(num[0]) && !CharClass::WhiteSpace.has(num.last()),
        num != seq!['0'],
        forall|i: int| 0 <= i < field.len() ==> #[trigger] field[i] != '[',
    ensures
        is_client_line(line) <==> line.len() >= 7 && line.take(7) == seq![
            'c',
            'l',
            'i',
            'e',
            'n',
            't',
            ' ',
        ],
        client_of("client "@ + (num + seq![':'] + field)) == Some((num, unquoted(field))),
        client_of("client "@ + num) == Some((num, Seq::<char>::empty())),
{
    reveal_strlit("client ");
    reveal_strlit("0");
    assert("0"@ == seq!['0']);
    assert("client "@ == seq!['c', 'l', 'i', 'e', 'n', 't', ' ']);
    assert(line.len() >= 7 ==> line.subrange(0, 7) == line.take(7));
    assert forall|i: int| 0 <= i < num.len() implies !CharClass::Only(':').has(
        #[trigger] num[i],
    ) by {
        assert(num[i] != ':');
    }
    assert forall|i: int| 0 <= i < field.len() implies !CharClass::Only('[').has(
        #[trigger] field[i],
    ) by {
        assert(field[i] != '[');
    }
    let none = Seq::<char>::empty();
    law_cut(num, ':', field, CharClass::Only(':'));
    law_cut(field, '[', none, CharClass::Only('['));
    law_cut(none, '[', none, CharClass::Only('['));
    law_strip(none, num, none, CharClass::WhiteSpace);
    assert(none + num + none == num);
    law_strip(none, none, none, CharClass::WhiteSpace);
    law_strip(none, none, none, CharClass::Quote);
    assert(none + none + none == none);
    assert(("client "@ + (num + seq![':'] + field)).skip(7) == num + seq![':'] + field);
    assert(("client "@ + num).skip(7) == num);
}

} // verus!
