//! Finds the code of a program by following it from its entry points, and
//! prints it.

use crate::bits::{make_pair, pair, wrap16};
use crate::interpreter::{opcode_size, SIZE_AND_CLOCKS};
use crate::text::{hex2, hex4, push_hex2, push_hex4};
use std::ops::Range;
use vstd::prelude::*;
use vstd::string::*;

verus! {

/// A jump or call is followed only to an address below this one.
pub const TARGET_LIMIT: u16 = 0x4000;

/// The number of bytes that the instruction with this opcode occupies. An
/// opcode that names no instruction stands for one byte.
pub open spec fn instruction_size(opcode: u8) -> int {
    if opcode_size(opcode) == 0 {
        1
    } else {
        opcode_size(opcode) as int
    }
}

/// An instruction occupies one, two or three bytes.
pub proof fn lemma_instruction_size(opcode: u8)
    ensures
        1 <= instruction_size(opcode) <= 3,
{
}

/// Whether the instruction after this one may run next. It may not after
/// JMP, after RET, and after an opcode that names no instruction.
pub open spec fn falls_through(opcode: u8) -> bool {
    opcode != 0xc3 && opcode != 0xc9 && opcode_size(opcode) != 0
}

/// Whether the instruction names the address of code: JMP, the conditional
/// jumps, and CALL.
pub open spec fn has_target(opcode: u8) -> bool {
    opcode == 0xc3 || opcode == 0xcd || (opcode >= 0xc0 && opcode % 8 == 2)
}

/// The end of the part of `rom` that is traced: no address is above 0xffff.
pub open spec fn rom_limit(rom: Seq<u8>) -> int {
    if rom.len() < 0xffff {
        rom.len() as int
    } else {
        0xffff
    }
}

/// Whether a whole instruction stands at `pc`.
pub open spec fn decodable(rom: Seq<u8>, pc: int) -> bool {
    0 <= pc < rom.len() && pc + instruction_size(rom[pc]) <= rom_limit(rom)
}

/// The 16-bit operand of the instruction at `pc`, low byte first.
pub open spec fn operand16(rom: Seq<u8>, pc: int) -> u16 {
    pair(rom[pc + 2], rom[pc + 1])
}

/// Whether the instruction at `next` may run right after the one at `pc`:
/// it follows it and the first falls through, or the first names it as a
/// target below `TARGET_LIMIT`.
pub open spec fn succeeds(rom: Seq<u8>, pc: int, next: int) -> bool {
    &&& decodable(rom, pc)
    &&& decodable(rom, next)
    &&& (falls_through(rom[pc]) && next == pc + instruction_size(rom[pc])) || (has_target(rom[pc])
        && next == operand16(rom, pc) && next < TARGET_LIMIT)
}

/// Whether `starts` holds every entry at which an instruction stands, and
/// with each instruction those that may run right after it.
pub open spec fn closed(rom: Seq<u8>, entries: Seq<u16>, starts: Set<int>) -> bool {
    &&& forall|i: int|
        0 <= i < entries.len() && decodable(rom, #[trigger] entries[i] as int) ==> starts.contains(
            entries[i] as int,
        )
    &&& forall|pc: int, next: int|
        starts.contains(pc) && #[trigger] succeeds(rom, pc, next) ==> starts.contains(next)
}

/// Whether an instruction that can be reached from the entries starts at `pc`.
pub open spec fn reachable(rom: Seq<u8>, entries: Seq<u16>, pc: int) -> bool {
    forall|starts: Set<int>| #[trigger] closed(rom, entries, starts) ==> starts.contains(pc)
}

/// Whether `adress` holds a byte of an instruction that can be reached.
pub open spec fn is_code(rom: Seq<u8>, entries: Seq<u16>, adress: int) -> bool {
    exists|pc: int|
        #[trigger] reachable(rom, entries, pc) && pc <= adress < pc + instruction_size(rom[pc])
}

/// Whether one of the ranges holds `adress`.
pub open spec fn covers(ranges: Seq<Range<u16>>, adress: int) -> bool {
    exists|i: int| 0 <= i < ranges.len() && (#[trigger] ranges[i]).start <= adress < ranges[i].end
}

/// Whether the ranges are not empty, in rising order, and apart: each ends
/// below the start of the next.
pub open spec fn well_formed(ranges: Seq<Range<u16>>) -> bool {
    &&& forall|i: int| 0 <= i < ranges.len() ==> (#[trigger] ranges[i]).start < ranges[i].end
    &&& forall|i: int, j: int|
        0 <= i < j < ranges.len() ==> (#[trigger] ranges[i]).end < (#[trigger] ranges[j]).start
}

/// An instruction can be reached only where one stands.
pub proof fn lemma_reachable_decodable(rom: Seq<u8>, entries: Seq<u16>, pc: int)
    requires
        reachable(rom, entries, pc),
    ensures
        decodable(rom, pc),
{
    let all = Set::new(|p: int| decodable(rom, p));
    assert(closed(rom, entries, all));
}

/// An entry at which an instruction stands can be reached.
pub proof fn lemma_entry_reachable(rom: Seq<u8>, entries: Seq<u16>, i: int)
    requires
        0 <= i < entries.len(),
        decodable(rom, entries[i] as int),
    ensures
        reachable(rom, entries, entries[i] as int),
{
}

/// What may run right after an instruction that can be reached can be
/// reached too.
pub proof fn lemma_successor_reachable(rom: Seq<u8>, entries: Seq<u16>, pc: int, next: int)
    requires
        reachable(rom, entries, pc),
        succeeds(rom, pc, next),
    ensures
        reachable(rom, entries, next),
{
    assert forall|starts: Set<int>| #[trigger] closed(rom, entries, starts) implies starts.contains(
        next,
    ) by {
        assert(starts.contains(pc));
    }
}

pub fn get_u8(index: u16, rom: &[u8]) -> (value: u8)
    requires
        index + 1 < rom@.len(),
    ensures
        value == rom@[index + 1],
{
    rom[index as usize + 1]
}

pub fn get_u16(index: u16, rom: &[u8]) -> (value: u16)
    requires
        index + 2 < rom@.len(),
    ensures
        value == operand16(rom@, index as int),
{
    make_pair(rom[index as usize + 2], rom[index as usize + 1])
}

/// The size of an instruction as `instruction_size` has it.
pub fn size_of(opcode: u8) -> (size: u8)
    ensures
        size == instruction_size(opcode),
        1 <= size <= 3,
{
    let size = SIZE_AND_CLOCKS[opcode as usize].0;
    if size == 0 {
        1
    } else {
        size
    }
}

/// Classifies the instruction at `pc`: its size, with 8 added if the next
/// instruction cannot run after it, and the address it names as a target.
pub fn trace_opcode(pc: u16, rom: &[u8]) -> (result: (u8, Option<u16>))
    requires
        pc < rom@.len(),
        pc + instruction_size(rom@[pc as int]) <= rom@.len(),
    ensures
        result.0 == instruction_size(rom@[pc as int]) + if falls_through(rom@[pc as int]) {
            0int
        } else {
            8int
        },
        result.1 == if has_target(rom@[pc as int]) {
            Some(operand16(rom@, pc as int))
        } else {
            None
        },
{
    let opcode = rom[pc as usize];
    let entry = SIZE_AND_CLOCKS[opcode as usize].0;
    let code: u8 = if opcode == 0xc3 || opcode == 0xc9 || entry == 0 {
        size_of(opcode) + 8
    } else {
        entry
    };
    if opcode == 0xc3 || opcode == 0xcd || (opcode >= 0xc0 && opcode % 8 == 2) {
        (code, Some(get_u16(pc, rom)))
    } else {
        (code, None)
    }
}

/// A range of well-formed ranges that are covered as another list covers
/// holds an address that the first range of the other list holds only if it
/// is the first itself.
proof fn lemma_first_range(a: Seq<Range<u16>>, b: Seq<Range<u16>>)
    requires
        well_formed(a),
        well_formed(b),
        a.len() > 0,
        forall|adress: int| covers(a, adress) <==> covers(b, adress),
    ensures
        b.len() > 0,
        b[0].start <= a[0].start,
        b[0].end >= a[0].end,
{
    let first = a[0];
    let low = first.start as int;
    assert(covers(a, low));
    let j = choose|j: int| 0 <= j < b.len() && (#[trigger] b[j]).start <= low < b[j].end;
    assert(b[0].start <= first.start) by {
        if j > 0 {
            assert(b[0].end < b[j].start);
        }
    }
    if b[0].end < first.end {
        let gap = b[0].end as int;
        if first.start <= gap {
            assert(covers(a, gap));
            let k = choose|k: int| 0 <= k < b.len() && (#[trigger] b[k]).start <= gap < b[k].end;
            if k > 0 {
                assert(b[0].end < b[k].start);
            }
        } else {
            if j > 0 {
                assert(b[0].end < b[j].start);
            }
            let other = b[0].start as int;
            assert(covers(b, other));
            let k = choose|k: int| 0 <= k < a.len() && (#[trigger] a[k]).start <= other < a[k].end;
            if k > 0 {
                assert(a[0].end < a[k].start);
            }
        }
    }
}

proof fn lemma_covers_drop_first(ranges: Seq<Range<u16>>, adress: int)
    requires
        well_formed(ranges),
        ranges.len() > 0,
    ensures
        well_formed(ranges.drop_first()),
        covers(ranges.drop_first(), adress) <==> covers(ranges, adress) && !(ranges[0].start
            <= adress < ranges[0].end),
{
    let rest = ranges.drop_first();
    assert forall|i: int| 0 <= i < rest.len() implies (#[trigger] rest[i]) == ranges[i + 1] by {}
    assert(well_formed(rest)) by {
        assert forall|i: int, j: int| 0 <= i < j < rest.len() implies (#[trigger] rest[i]).end < (
        #[trigger] rest[j]).start by {
            assert(ranges[i + 1].end < ranges[j + 1].start);
        }
    }
    if covers(rest, adress) {
        let i = choose|i: int| 0 <= i < rest.len() && (#[trigger] rest[i]).start <= adress < rest[i].end;
        assert(ranges[i + 1].start <= adress < ranges[i + 1].end);
        assert(ranges[0].end < ranges[i + 1].start);
    }
    if covers(ranges, adress) && !(ranges[0].start <= adress < ranges[0].end) {
        let i = choose|i: int|
            0 <= i < ranges.len() && (#[trigger] ranges[i]).start <= adress < ranges[i].end;
        assert(rest[i - 1].start <= adress < rest[i - 1].end);
    }
}

/// Two lists of ranges that are well formed and cover the same addresses
/// are the same list.
pub proof fn lemma_ranges_unique(a: Seq<Range<u16>>, b: Seq<Range<u16>>)
    requires
        well_formed(a),
        well_formed(b),
        forall|adress: int| covers(a, adress) <==> covers(b, adress),
    ensures
        a == b,
    decreases a.len(),
{
    if a.len() == 0 {
        if b.len() > 0 {
            lemma_first_range(b, a);
        }
        assert(a =~= b);
    } else {
        lemma_first_range(a, b);
        lemma_first_range(b, a);
        assert(a[0] == b[0]);
        assert forall|adress: int| covers(a.drop_first(), adress) <==> covers(
            b.drop_first(),
            adress,
        ) by {
            lemma_covers_drop_first(a, adress);
            lemma_covers_drop_first(b, adress);
        }
        lemma_covers_drop_first(a, 0);
        lemma_covers_drop_first(b, 0);
        lemma_ranges_unique(a.drop_first(), b.drop_first());
        assert(a =~= seq![a[0]] + a.drop_first());
        assert(b =~= seq![b[0]] + b.drop_first());
    }
}

/// Whether `ranges` are the code that can be reached from `entries`:
/// well formed, and covering the bytes of that code and no others.
pub open spec fn is_code_ranges(rom: Seq<u8>, entries: Seq<u16>, ranges: Seq<Range<u16>>) -> bool {
    &&& well_formed(ranges)
    &&& forall|adress: int| covers(ranges, adress) <==> is_code(rom, entries, adress)
}

/// The code that can be reached from `entries`, as ranges. Only one list of
/// ranges is that code.
pub open spec fn code_ranges(rom: Seq<u8>, entries: Seq<u16>) -> Seq<Range<u16>> {
    choose|ranges: Seq<Range<u16>>| is_code_ranges(rom, entries, ranges)
}

/// A list of ranges that is the code is `code_ranges`.
pub proof fn lemma_code_ranges(rom: Seq<u8>, entries: Seq<u16>, ranges: Seq<Range<u16>>)
    requires
        is_code_ranges(rom, entries, ranges),
    ensures
        ranges == code_ranges(rom, entries),
{
    lemma_ranges_unique(ranges, code_ranges(rom, entries));
}

/// The code holds every entry at which an instruction stands.
pub proof fn lemma_entry_is_covered(
    rom: Seq<u8>,
    entries: Seq<u16>,
    ranges: Seq<Range<u16>>,
    i: int,
)
    requires
        is_code_ranges(rom, entries, ranges),
        0 <= i < entries.len(),
        decodable(rom, entries[i] as int),
    ensures
        covers(ranges, entries[i] as int),
{
    lemma_entry_reachable(rom, entries, i);
    lemma_instruction_size(rom[entries[i] as int]);
    assert(is_code(rom, entries, entries[i] as int));
}

/// The code lies in the part of the rom that is traced.
pub proof fn lemma_ranges_within(
    rom: Seq<u8>,
    entries: Seq<u16>,
    ranges: Seq<Range<u16>>,
    i: int,
)
    requires
        is_code_ranges(rom, entries, ranges),
        0 <= i < ranges.len(),
    ensures
        ranges[i].start < ranges[i].end <= rom_limit(rom),
{
    let last = ranges[i].end - 1;
    assert(covers(ranges, last));
    assert(is_code(rom, entries, last));
    let pc = choose|pc: int|
        #[trigger] reachable(rom, entries, pc) && pc <= last < pc + instruction_size(rom[pc]);
    lemma_reachable_decodable(rom, entries, pc);
}

/// The number of entries that are `false`.
pub open spec fn count_false(flags: Seq<bool>) -> nat
    decreases flags.len(),
{
    if flags.len() == 0 {
        0
    } else {
        count_false(flags.drop_last()) + if flags.last() {
            0nat
        } else {
            1nat
        }
    }
}

proof fn lemma_count_false_update(flags: Seq<bool>, index: int)
    requires
        0 <= index < flags.len(),
        !flags[index],
    ensures
        count_false(flags.update(index, true)) + 1 == count_false(flags),
    decreases flags.len(),
{
    let updated = flags.update(index, true);
    if index == flags.len() - 1 {
        assert(updated.drop_last() =~= flags.drop_last());
    } else {
        lemma_count_false_update(flags.drop_last(), index);
        assert(updated.drop_last() =~= flags.drop_last().update(index, true));
    }
}

proof fn lemma_contains_drop_last(list: Seq<u16>, value: u16)
    requires
        list.len() > 0,
        list.contains(value),
    ensures
        list.drop_last().contains(value) || list.last() == value,
{
    let i = choose|i: int| 0 <= i < list.len() && list[i] == value;
    if i < list.len() - 1 {
        assert(list.drop_last()[i] == value);
    }
}

proof fn lemma_contains_push(list: Seq<u16>, pushed: u16, value: u16)
    ensures
        list.contains(value) ==> list.push(pushed).contains(value),
        list.push(pushed).contains(pushed),
{
    if list.contains(value) {
        let i = choose|i: int| 0 <= i < list.len() && list[i] == value;
        assert(list.push(pushed)[i] == value);
    }
    assert(list.push(pushed)[list.len() as int] == pushed);
}

/// Whether an instruction that was found starts at `pc` and holds `adress`.
pub open spec fn started_at(rom: Seq<u8>, starts: Seq<bool>, pc: int, adress: int) -> bool {
    0 <= pc < starts.len() && starts[pc] && pc <= adress < pc + instruction_size(rom[pc])
}

/// What holds while the code is followed: every instruction found can be
/// reached, and so can every one that waits in the list; the bytes marked as
/// code are those of the instructions found; and what may run after an
/// instruction found, or is an entry, was found too or waits in the list.
pub open spec fn following(
    rom: Seq<u8>,
    entries: Seq<u16>,
    starts: Seq<bool>,
    code: Seq<bool>,
    worklist: Seq<u16>,
) -> bool {
    &&& starts.len() == rom_limit(rom)
    &&& code.len() == rom_limit(rom)
    &&& forall|pc: int| 0 <= pc < starts.len() && #[trigger] starts[pc] ==> reachable(rom, entries, pc)
    &&& forall|k: int|
        0 <= k < worklist.len() && decodable(rom, #[trigger] worklist[k] as int) ==> reachable(
            rom,
            entries,
            worklist[k] as int,
        )
    &&& forall|adress: int|
        0 <= adress < code.len() ==> (#[trigger] code[adress] <==> started_at(
            rom,
            starts,
            adress,
            adress,
        ) || started_at(rom, starts, adress - 1, adress) || started_at(
            rom,
            starts,
            adress - 2,
            adress,
        ))
    &&& forall|i: int|
        0 <= i < entries.len() && decodable(rom, #[trigger] entries[i] as int) ==> starts[entries[i] as int]
            || worklist.contains(entries[i])
    &&& forall|pc: int, next: int|
        0 <= pc < starts.len() && starts[pc] && #[trigger] succeeds(rom, pc, next) ==> starts[next]
            || worklist.contains(next as u16)
}

proof fn lemma_covers_push(ranges: Seq<Range<u16>>, range: Range<u16>, adress: int)
    ensures
        covers(ranges.push(range), adress) <==> covers(ranges, adress) || range.start <= adress
            < range.end,
{
    let pushed = ranges.push(range);
    if covers(ranges, adress) {
        let i = choose|i: int| 0 <= i < ranges.len() && (#[trigger] ranges[i]).start <= adress < ranges[i].end;
        assert(pushed[i] == ranges[i]);
    }
    if range.start <= adress < range.end {
        assert(pushed[ranges.len() as int] == range);
    }
    if covers(pushed, adress) {
        let i = choose|i: int| 0 <= i < pushed.len() && (#[trigger] pushed[i]).start <= adress < pushed[i].end;
        if i < ranges.len() {
            assert(ranges[i] == pushed[i]);
        }
    }
}

/// The runs of `true` in `code`, each as a range, in rising order.
#[verifier::rlimit(60)]
fn collect(code: &Vec<bool>) -> (ranges: Vec<Range<u16>>)
    requires
        code@.len() <= 0xffff,
    ensures
        well_formed(ranges@),
        forall|adress: int| covers(ranges@, adress) <==> 0 <= adress < code@.len() && code@[adress],
{
    let mut ranges: Vec<Range<u16>> = Vec::new();
    let mut at: usize = 0;
    while at < code.len()
        invariant
            at <= code@.len() <= 0xffff,
            well_formed(ranges@),
            forall|i: int| 0 <= i < ranges@.len() ==> (#[trigger] ranges@[i]).end <= at,
            forall|adress: int| 0 <= adress < at ==> (covers(ranges@, adress) <==> code@[adress]),
            ranges@.len() > 0 && ranges@.last().end == at && at < code@.len() ==> !code@[at as int],
        decreases code@.len() - at,
    {
        if code[at] {
            let start: usize = at;
            while at < code.len() && code[at]
                invariant
                    start <= at <= code@.len(),
                    code@[start as int],
                    forall|adress: int| start <= adress < at ==> code@[adress],
                decreases code@.len() - at,
            {
                at += 1;
            }
            let range = Range { start: start as u16, end: at as u16 };
            proof {
                assert forall|adress: int| 0 <= adress < at implies (covers(
                    ranges@.push(range),
                    adress,
                ) <==> code@[adress]) by {
                    lemma_covers_push(ranges@, range, adress);
                    if adress >= start && covers(ranges@, adress) {
                        let i = choose|i: int|
                            0 <= i < ranges@.len() && (#[trigger] ranges@[i]).start <= adress
                                < ranges@[i].end;
                    }
                }
            }
            ranges.push(range);
        } else {
            proof {
                if covers(ranges@, at as int) {
                    let i = choose|i: int|
                        0 <= i < ranges@.len() && (#[trigger] ranges@[i]).start <= at
                            < ranges@[i].end;
                }
            }
            at += 1;
        }
    }
    proof {
        assert forall|adress: int| covers(ranges@, adress) implies 0 <= adress < code@.len() by {
            let i = choose|i: int|
                0 <= i < ranges@.len() && (#[trigger] ranges@[i]).start <= adress < ranges@[i].end;
        }
    }
    ranges
}

/// Follows the code of `rom` from `entries` and returns the bytes that
/// belong to it as ranges of addresses, each from its start up to but not
/// including its end, in rising order and apart.
///
/// An instruction counts where it can be reached: it stands at an entry, or
/// after an instruction that falls through to it, or at the target of a
/// jump or call below `TARGET_LIMIT`. Only whole instructions below
/// `rom_limit` count.
#[verifier::rlimit(60)]
pub fn trace(rom: &[u8], entries: &[u16]) -> (ranges: Vec<Range<u16>>)
    ensures
        is_code_ranges(rom@, entries@, ranges@),
        ranges@ == code_ranges(rom@, entries@),
{
    let limit: usize = if rom.len() < 0xffff {
        rom.len()
    } else {
        0xffff
    };
    let mut starts: Vec<bool> = vec![false; limit];
    let mut code: Vec<bool> = vec![false; limit];
    let mut worklist: Vec<u16> = Vec::new();
    let mut i: usize = 0;
    while i < entries.len()
        invariant
            i <= entries@.len(),
            worklist@ == entries@.subrange(0, i as int),
        decreases entries@.len() - i,
    {
        worklist.push(entries[i]);
        assert(entries@.subrange(0, i as int).push(entries@[i as int]) =~= entries@.subrange(
            0,
            i + 1,
        ));
        i += 1;
    }
    proof {
        assert(worklist@ =~= entries@);
        assert forall|k: int|
            0 <= k < worklist@.len() && decodable(
                rom@,
                #[trigger] worklist@[k] as int,
            ) implies reachable(rom@, entries@, worklist@[k] as int) by {
            lemma_entry_reachable(rom@, entries@, k);
        }
        assert forall|i: int|
            0 <= i < entries@.len() implies worklist@.contains(#[trigger] entries@[i]) by {
            assert(worklist@[i] == entries@[i]);
        }
    }
    while worklist.len() > 0
        invariant
            limit == rom_limit(rom@),
            following(rom@, entries@, starts@, code@, worklist@),
        decreases count_false(starts@), worklist@.len(),
    {
        let ghost before = worklist@;
        let ghost found = starts@;
        let ghost marked = code@;
        let pc = worklist.pop().unwrap();
        let at = pc as usize;
        let mut fresh = false;
        if at < limit && !starts[at] {
            let opcode = rom[at];
            let size = size_of(opcode) as usize;
            if at + size <= limit {
                fresh = true;
                let (kind, target) = trace_opcode(pc, rom);
                starts[at] = true;
                code[at] = true;
                if size > 1 {
                    code[at + 1] = true;
                }
                if size > 2 {
                    code[at + 2] = true;
                }
                let ghost popped = worklist@;
                if kind < 8 {
                    worklist.push((at + size) as u16);
                }
                let ghost stepped = worklist@;
                match target {
                    Some(adress) => {
                        if adress < TARGET_LIMIT {
                            worklist.push(adress);
                        }
                    },
                    None => {},
                }
                proof {
                    let list = worklist@;
                    lemma_count_false_update(found, at as int);
                    assert(decodable(rom@, at as int));
                    assert(before[before.len() - 1] == pc);
                    assert(reachable(rom@, entries@, at as int));
                    assert forall|value: u16| before.contains(value) implies list.contains(value)
                        || value == pc by {
                        lemma_contains_drop_last(before, value);
                        if popped.contains(value) {
                            if stepped != popped {
                                lemma_contains_push(popped, (at + size) as u16, value);
                            }
                            if list != stepped {
                                lemma_contains_push(stepped, target.unwrap(), value);
                            }
                        }
                    }
                    assert forall|k: int|
                        0 <= k < list.len() && decodable(
                            rom@,
                            #[trigger] list[k] as int,
                        ) implies reachable(rom@, entries@, list[k] as int) by {
                        if k < popped.len() {
                            assert(list[k] == before[k]);
                        } else {
                            assert(succeeds(rom@, at as int, list[k] as int));
                            lemma_successor_reachable(rom@, entries@, at as int, list[k] as int);
                        }
                    }
                    assert forall|i: int|
                        0 <= i < entries@.len() && decodable(
                            rom@,
                            #[trigger] entries@[i] as int,
                        ) implies starts@[entries@[i] as int] || list.contains(entries@[i]) by {
                        assert(before.contains(entries@[i]) ==> list.contains(entries@[i])
                            || entries@[i] == pc);
                    }
                    assert forall|from: int, next: int|
                        0 <= from < starts@.len() && starts@[from] && #[trigger] succeeds(
                            rom@,
                            from,
                            next,
                        ) implies starts@[next] || list.contains(next as u16) by {
                        if from == at {
                            if falls_through(rom@[from]) && next == from + instruction_size(
                                rom@[from],
                            ) {
                                lemma_contains_push(popped, (at + size) as u16, next as u16);
                                if list != stepped {
                                    lemma_contains_push(stepped, target.unwrap(), next as u16);
                                }
                            } else {
                                lemma_contains_push(stepped, target.unwrap(), next as u16);
                            }
                        } else {
                            assert(found[from]);
                            assert(before.contains(next as u16) ==> list.contains(next as u16)
                                || next as u16 == pc);
                        }
                    }
                }
            }
        }
        proof {
            if !fresh {
                assert(before[before.len() - 1] == pc);
                assert(decodable(rom@, pc as int) ==> starts@[pc as int]);
                assert forall|value: u16| before.contains(value) implies worklist@.contains(value)
                    || value == pc by {
                    lemma_contains_drop_last(before, value);
                }
                assert forall|i: int|
                    0 <= i < entries@.len() && decodable(
                        rom@,
                        #[trigger] entries@[i] as int,
                    ) implies starts@[entries@[i] as int] || worklist@.contains(entries@[i]) by {
                    assert(before.contains(entries@[i]) ==> worklist@.contains(entries@[i])
                        || entries@[i] == pc);
                }
                assert forall|from: int, next: int|
                    0 <= from < starts@.len() && starts@[from] && #[trigger] succeeds(
                        rom@,
                        from,
                        next,
                    ) implies starts@[next] || worklist@.contains(next as u16) by {
                    assert(before.contains(next as u16) ==> worklist@.contains(next as u16)
                        || next as u16 == pc);
                }
            }
        }
    }
    let ranges = collect(&code);
    proof {
        let found = Set::new(|pc: int| 0 <= pc < starts@.len() && starts@[pc]);
        assert(closed(rom@, entries@, found)) by {
            assert forall|i: int|
                0 <= i < entries@.len() && decodable(
                    rom@,
                    #[trigger] entries@[i] as int,
                ) implies found.contains(entries@[i] as int) by {
                assert(!worklist@.contains(entries@[i]));
            }
            assert forall|pc: int, next: int|
                found.contains(pc) && #[trigger] succeeds(rom@, pc, next) implies found.contains(
                    next,
                ) by {
                assert(!worklist@.contains(next as u16));
            }
        }
        assert forall|adress: int| covers(ranges@, adress) <==> is_code(
            rom@,
            entries@,
            adress,
        ) by {
            if covers(ranges@, adress) {
                let pc = if started_at(rom@, starts@, adress, adress) {
                    adress
                } else if started_at(rom@, starts@, adress - 1, adress) {
                    adress - 1
                } else {
                    adress - 2
                };
                assert(code@[adress]);
                assert(started_at(rom@, starts@, pc, adress));
                assert(reachable(rom@, entries@, pc));
            }
            if is_code(rom@, entries@, adress) {
                let pc = choose|pc: int|
                    #[trigger] reachable(rom@, entries@, pc) && pc <= adress < pc
                        + instruction_size(rom@[pc]);
                lemma_reachable_decodable(rom@, entries@, pc);
                assert(found.contains(pc));
                assert(started_at(rom@, starts@, pc, adress));
                assert(code@[adress]);
            }
        }
        lemma_code_ranges(rom@, entries@, ranges@);
    }
    ranges
}

/// For each opcode, how its instruction is written, up to its operand. One
/// that takes an operand byte or address ends in the space before it.
pub const MNEMONICS: [&'static str; 256] = [
    "NOP        ", "LXI  B ", "STAX B     ", "INX  B     ",
    "INR  B     ", "DCR  B     ", "MVI  B ", "RLC        ",
    "<UNDEFINED>", "DAD  B     ", "LDAX B     ", "DCX  B     ",
    "INR  C     ", "DCR  C     ", "MVI  C ", "RRC        ",
    "<UNDEFINED>", "LXI  D ", "STAX D     ", "INX  D     ",
    "INR  D     ", "DCR  D     ", "MVI  D ", "RAL        ",
    "<UNDEFINED>", "DAD  D     ", "LDAX D     ", "DCX  D     ",
    "INR  E     ", "DCR  E     ", "MVI  E ", "RAR        ",
    "<UNDEFINED>", "LXI  H ", "SHLD  ", "INX  H     ",
    "INR  H     ", "DCR  H     ", "MVI  H ", "DAA        ",
    "<UNDEFINED>", "DAD  H     ", "LHLD  ", "DCX  H     ",
    "INR  L     ", "DCR  L     ", "MVI  L ", "CMA        ",
    "<UNDEFINED>", "LXI  SP ", "STA ", "INX  SP    ",
    "INR  M     ", "DCR  M     ", "MVI  M ", "STC        ",
    "<UNDEFINED>", "DAD  SP    ", "LDA ", "DCX  SP    ",
    "INR  A     ", "DCR  A     ", "MVI  A ", "CMC        ",
    "MOV  B, B", "MOV  B, C", "MOV  B, D", "MOV  B, E",
    "MOV  B, H", "MOV  B, L", "MOV  B, M", "MOV  B, A",
    "MOV  C, B", "MOV  C, C", "MOV  C, D", "MOV  C, E",
    "MOV  C, H", "MOV  C, L", "MOV  C, M", "MOV  C, A",
    "MOV  D, B", "MOV  D, C", "MOV  D, D", "MOV  D, E",
    "MOV  D, H", "MOV  D, L", "MOV  D, M", "MOV  D, A",
    "MOV  E, B", "MOV  E, C", "MOV  E, D", "MOV  E, E",
    "MOV  E, H", "MOV  E, L", "MOV  E, M", "MOV  E, A",
    "MOV  H, B", "MOV  H, C", "MOV  H, D", "MOV  H, E",
    "MOV  H, H", "MOV  H, L", "MOV  H, M", "MOV  H, A",
    "MOV  L, B", "MOV  L, C", "MOV  L, D", "MOV  L, E",
    "MOV  L, H", "MOV  L, L", "MOV  L, M", "MOV  L, A",
    "MOV  M, B", "MOV  M, C", "MOV  M, D", "MOV  M, E",
    "MOV  M, H", "MOV  M, L", "HLT        ", "MOV  M, A",
    "MOV  A, B", "MOV  A, C", "MOV  A, D", "MOV  A, E",
    "MOV  A, H", "MOV  A, L", "MOV  A, M", "MOV  A, A",
    "ADD  B     ", "ADD  C     ", "ADD  D     ", "ADD  E     ",
    "ADD  H     ", "ADD  L     ", "ADD  M     ", "ADD  A     ",
    "ADC  B     ", "ADC  C     ", "ADC  D     ", "ADC  E     ",
    "ADC  H     ", "ADC  L     ", "ADC  M     ", "ADC  A     ",
    "SUB  B     ", "SUB  C     ", "SUB  D     ", "SUB  E     ",
    "SUB  H     ", "SUB  L     ", "SUB  M     ", "SUB  A     ",
    "SBB  B     ", "SBB  C     ", "SBB  D     ", "SBB  E     ",
    "SBB  H     ", "SBB  L     ", "SBB  M     ", "SBB  A     ",
    "ANA  B     ", "ANA  C     ", "ANA  D     ", "ANA  E     ",
    "ANA  H     ", "ANA  L     ", "ANA  M     ", "ANA  A     ",
    "XRA  B     ", "XRA  C     ", "XRA  D     ", "XRA  E     ",
    "XRA  H     ", "XRA  L     ", "XRA  M     ", "XRA  A     ",
    "ORA  B     ", "ORA  C     ", "ORA  D     ", "ORA  E     ",
    "ORA  H     ", "ORA  L     ", "ORA  M     ", "ORA  A     ",
    "CMP  B     ", "CMP  C     ", "CMP  D     ", "CMP  E     ",
    "CMP  H     ", "CMP  L     ", "CMP  M     ", "CMP  A     ",
    "RNZ        ", "POP  B     ", "JNZ  ", "JMP  ",
    "CNZ  ", "PUSH B     ", "ADI ", "RST 000   ",
    "RZ         ", "RET        ", "JZ   ", "<UNDEFINED>",
    "CZ   ", "CALL ", "ACI ", "RST 001   ",
    "RNC        ", "POP  D     ", "JNC  ", "OUT ",
    "CNC  ", "PUSH D     ", "SUI ", "RST 010   ",
    "RC         ", "<UNDEFINED>", "JC   ", "IN ",
    "CC   ", "<UNDEFINED>", "SBI ", "RST 011   ",
    "RPO        ", "POP  H     ", "JPO  ", "XTHL       ",
    "CPO  ", "PUSH H     ", "ANI ", "RST 100   ",
    "RPE        ", "PCHL       ", "JPE  ", "XCHG       ",
    "CPE  ", "<UNDEFINED>", "XRI ", "RST 101   ",
    "RP         ", "POP  PSW   ", "JP   ", "DI         ",
    "CP   ", "PUSH PSW   ", "ORI ", "RST 110   ",
    "RM         ", "SPHL       ", "JM   ", "EI         ",
    "CM   ", "<UNDEFINED>", "CPI ", "RST 111   ",
];

/// Whether the whole instruction at `pc` lies in `rom`.
pub open spec fn fits(rom: Seq<u8>, pc: int) -> bool {
    0 <= pc < rom.len() && pc + instruction_size(rom[pc]) <= rom.len()
}

/// The operand of the instruction at `pc` as text: two digits for a byte,
/// four for an address, nothing where there is none.
pub open spec fn operand_text(rom: Seq<u8>, pc: int) -> Seq<char> {
    if instruction_size(rom[pc]) == 2 {
        hex2(rom[pc + 1])
    } else if instruction_size(rom[pc]) == 3 {
        hex4(operand16(rom, pc))
    } else {
        Seq::empty()
    }
}

/// The instruction at `pc` as a line of text.
pub open spec fn instruction_text(rom: Seq<u8>, pc: int) -> Seq<char> {
    MNEMONICS[rom[pc] as int]@ + operand_text(rom, pc) + "\n"@
}

/// A line of a listing: the address, the opcode, the instruction.
pub open spec fn listing_line(rom: Seq<u8>, pc: int) -> Seq<char> {
    hex4(pc as u16) + " : "@ + hex2(rom[pc]) + "    "@ + instruction_text(rom, pc)
}

/// The lines of the instructions from `pc` on that start below `end`.
pub open spec fn listing(rom: Seq<u8>, pc: int, end: int) -> Seq<char>
    decreases end - pc + 3,
{
    if pc < end && fits(rom, pc) {
        proof {
            lemma_instruction_size(rom[pc]);
        }
        listing_line(rom, pc) + listing(rom, pc + instruction_size(rom[pc]), end)
    } else {
        Seq::empty()
    }
}

/// The listings of the first `count` ranges, with a line of three dots
/// between blank lines before each but the first.
pub open spec fn listings(rom: Seq<u8>, ranges: Seq<Range<u16>>, count: int) -> Seq<char>
    decreases count,
{
    if count <= 0 {
        Seq::empty()
    } else {
        listings(rom, ranges, count - 1) + (if count > 1 {
            "\n...\n\n"@
        } else {
            Seq::empty()
        }) + listing(rom, ranges[count - 1].start as int, ranges[count - 1].end as int)
    }
}

fn push_instruction(text: &mut String, at: usize, rom: &[u8]) -> (size: u8)
    requires
        fits(rom@, at as int),
        at <= 0xffff,
    ensures
        final(text)@ == old(text)@ + instruction_text(rom@, at as int),
        size == instruction_size(rom@[at as int]),
{
    let opcode = rom[at];
    let size = size_of(opcode);
    text.append(MNEMONICS[opcode as usize]);
    if size == 2 {
        push_hex2(text, get_u8(at as u16, rom));
    } else if size == 3 {
        push_hex4(text, get_u16(at as u16, rom));
    }
    text.append("\n");
    assert(text@ =~= old(text)@ + instruction_text(rom@, at as int));
    size
}

/// Writes the instruction at `pc` as a line of text, and returns the line
/// with the number of bytes that the instruction occupies.
pub fn dissasembly_opcode(pc: u16, rom: &[u8]) -> (result: (String, u8))
    requires
        fits(rom@, pc as int),
    ensures
        result.0@ == instruction_text(rom@, pc as int),
        result.1 == instruction_size(rom@[pc as int]),
{
    let mut text = String::new();
    let size = push_instruction(&mut text, pc as usize, rom);
    assert(text@ =~= instruction_text(rom@, pc as int));
    (text, size)
}

#[verifier::rlimit(60)]
fn push_listing(text: &mut String, rom: &[u8], start: u16, end: u16)
    ensures
        final(text)@ == old(text)@ + listing(rom@, start as int, end as int),
{
    let mut at: usize = start as usize;
    while at < end as usize && at < rom.len() && at + size_of(rom[at]) as usize <= rom.len()
        invariant
            at <= 0xffff + 3,
            text@ + listing(rom@, at as int, end as int) == old(text)@ + listing(
                rom@,
                start as int,
                end as int,
            ),
        decreases end + 3 - at,
    {
        let ghost before = text@;
        push_hex4(text, at as u16);
        text.append(" : ");
        push_hex2(text, rom[at]);
        text.append("    ");
        let size = push_instruction(text, at, rom);
        proof {
            let rest = listing(rom@, at + size, end as int);
            let line = listing_line(rom@, at as int);
            assert(fits(rom@, at as int));
            assert(listing(rom@, at as int, end as int) == line + rest);
            assert(text@ =~= before + line);
            assert(text@ + rest =~= before + (line + rest));
        }
        at += size as usize;
    }
    assert(text@ + Seq::<char>::empty() =~= text@);
}

/// Lists the instructions of each range in turn.
pub fn listing_of(rom: &[u8], ranges: &Vec<Range<u16>>) -> (text: String)
    ensures
        text@ == listings(rom@, ranges@, ranges@.len() as int),
{
    let mut text = String::new();
    let mut index: usize = 0;
    assert(text@ =~= listings(rom@, ranges@, 0));
    while index < ranges.len()
        invariant
            index <= ranges@.len(),
            text@ == listings(rom@, ranges@, index as int),
        decreases ranges@.len() - index,
    {
        let ghost before = text@;
        if index > 0 {
            text.append("\n...\n\n");
        }
        push_listing(&mut text, rom, ranges[index].start, ranges[index].end);
        assert(text@ =~= listings(rom@, ranges@, index + 1)) by {
            assert(before + Seq::<char>::empty() =~= before);
        }
        index += 1;
    }
    text
}

/// Lists the code of `rom` that can be reached from `entries`.
pub fn dissasembly(rom: &[u8], entries: &[u16]) -> (text: String)
    ensures
        text@ == listings(
            rom@,
            code_ranges(rom@, entries@),
            code_ranges(rom@, entries@).len() as int,
        ),
{
    let ranges = trace(rom, entries);
    listing_of(rom, &ranges)
}

/// A line that stands for no instruction.
pub open spec fn blank_lines(count: int) -> Seq<char>
    decreases count,
{
    if count <= 0 {
        Seq::empty()
    } else {
        "      :\n"@ + blank_lines(count - 1)
    }
}

/// The index of the first range from `from` on that holds `pc`, or the
/// number of ranges if none does.
pub open spec fn find_range(traced: Seq<Range<u16>>, pc: u16, from: int) -> int
    decreases traced.len() - from,
{
    if from < 0 || from >= traced.len() {
        traced.len() as int
    } else if traced[from].start <= pc < traced[from].end {
        from
    } else {
        find_range(traced, pc, from + 1)
    }
}

/// The number of instructions, one after the other from `from` on, that
/// start below `pc`.
pub open spec fn steps_before(rom: Seq<u8>, from: int, pc: int) -> nat
    decreases pc - from + 3,
{
    if from < pc && fits(rom, from) {
        proof {
            lemma_instruction_size(rom[from]);
        }
        1 + steps_before(rom, from + instruction_size(rom[from]), pc)
    } else {
        0
    }
}

/// The address `count` instructions after `from`.
pub open spec fn walked(rom: Seq<u8>, from: int, count: nat) -> int
    decreases count,
{
    if count == 0 {
        from
    } else {
        walked(rom, from + instruction_size(rom[from]), (count - 1) as nat)
    }
}

/// A line of the window: the address, `>>` where it is `pc` and `:`
/// elsewhere, and the instruction.
pub open spec fn window_line(rom: Seq<u8>, at: int, pc: int) -> Seq<char> {
    hex4(at as u16) + (if at == pc {
        " >> "@
    } else {
        "  : "@
    }) + instruction_text(rom, at)
}

/// The lines of at most `count` instructions from `at` on that start below
/// `end`.
pub open spec fn window(rom: Seq<u8>, at: int, end: int, pc: int, count: int) -> Seq<char>
    decreases count,
{
    if count > 0 && at < end && fits(rom, at) {
        window_line(rom, at, pc) + window(rom, at + instruction_size(rom[at]), end, pc, count - 1)
    } else {
        Seq::empty()
    }
}

/// The number of lines of `window`.
pub open spec fn window_len(rom: Seq<u8>, at: int, end: int, count: int) -> int
    decreases count,
{
    if count > 0 && at < end && fits(rom, at) {
        1 + window_len(rom, at + instruction_size(rom[at]), end, count - 1)
    } else {
        0
    }
}

/// The line that says that no instruction starts at `pc`.
pub open spec fn failure_line(start: u16, stop: int, pc: u16) -> Seq<char> {
    "dissasembly fails, starts = "@ + hex4(start) + ", i = "@ + hex4(wrap16(stop)) + ", pc = "@
        + hex4(pc) + "\n"@
}

/// Thirteen lines around `pc`. In the first range that holds `pc`: up to
/// six instructions before `pc`, the one at `pc`, and those after it up to
/// the end of the range, with blank lines above and below where there are
/// fewer; before them a line of failure if no instruction starts at `pc`
/// when the range is read from its start. Outside every range: a line that
/// says so, and seven instructions from `pc` on.
pub open spec fn around(traced: Seq<Range<u16>>, rom: Seq<u8>, pc: u16) -> Seq<char> {
    let index = find_range(traced, pc, 0);
    if index < traced.len() {
        let range = traced[index];
        let before = steps_before(rom, range.start as int, pc as int);
        let stop = walked(rom, range.start as int, before);
        let top: int = if before < 6 {
            6 - before
        } else {
            0
        };
        let anchor = walked(
            rom,
            range.start as int,
            if before < 6 {
                0
            } else {
                (before - 6) as nat
            },
        );
        (if stop != pc {
            failure_line(range.start, stop, pc)
        } else {
            Seq::empty()
        }) + blank_lines(top) + window(rom, anchor, range.end as int, pc as int, 13 - top)
            + blank_lines(13 - top - window_len(rom, anchor, range.end as int, 13 - top))
    } else {
        "out of traced memory\n"@ + window(rom, pc as int, 0x10000, pc as int, 7)
    }
}

proof fn lemma_walked_more(rom: Seq<u8>, from: int, count: nat)
    ensures
        walked(rom, from, count + 1) == walked(rom, from, count) + instruction_size(
            rom[walked(rom, from, count)],
        ),
    decreases count,
{
    if count > 0 {
        lemma_walked_more(rom, from + instruction_size(rom[from]), (count - 1) as nat);
    } else {
        assert(walked(rom, from + instruction_size(rom[from]), 0) == from + instruction_size(
            rom[from],
        ));
    }
}

fn push_blank_lines(text: &mut String, count: usize)
    ensures
        final(text)@ == old(text)@ + blank_lines(count as int),
{
    let mut left = count;
    assert(text@ + blank_lines(0) =~= text@);
    while left > 0
        invariant
            text@ + blank_lines(left as int) == old(text)@ + blank_lines(count as int),
        decreases left,
    {
        let ghost before = text@;
        text.append("      :\n");
        assert(text@ + blank_lines(left - 1) =~= before + blank_lines(left as int));
        left -= 1;
    }
    assert(text@ + blank_lines(0) =~= text@);
}

#[verifier::rlimit(60)]
fn push_window(text: &mut String, rom: &[u8], start: usize, end: usize, pc: u16, count: usize) -> (shown: usize)
    requires
        end <= 0x10000,
    ensures
        final(text)@ == old(text)@ + window(rom@, start as int, end as int, pc as int, count as int),
        shown == window_len(rom@, start as int, end as int, count as int),
        shown <= count,
{
    let mut at: usize = start;
    let mut left: usize = count;
    while left > 0 && at < end && at < rom.len() && at + size_of(rom[at]) as usize <= rom.len()
        invariant
            end <= 0x10000,
            left <= count,
            at <= 0x10003 || at == start,
            text@ + window(rom@, at as int, end as int, pc as int, left as int) == old(text)@
                + window(rom@, start as int, end as int, pc as int, count as int),
            count - left + window_len(rom@, at as int, end as int, left as int) == window_len(
                rom@,
                start as int,
                end as int,
                count as int,
            ),
        decreases left,
    {
        let ghost before = text@;
        push_hex4(text, at as u16);
        if at == pc as usize {
            text.append(" >> ");
        } else {
            text.append("  : ");
        }
        let size = push_instruction(text, at, rom);
        proof {
            let rest = window(rom@, at + size, end as int, pc as int, left - 1);
            let line = window_line(rom@, at as int, pc as int);
            assert(fits(rom@, at as int));
            assert(window(rom@, at as int, end as int, pc as int, left as int) == line + rest);
            assert(window_len(rom@, at as int, end as int, left as int) == 1 + window_len(
                rom@,
                at + size,
                end as int,
                left - 1,
            ));
            assert(text@ =~= before + line);
            assert(text@ + rest =~= before + (line + rest));
        }
        at += size as usize;
        left -= 1;
    }
    assert(text@ + Seq::<char>::empty() =~= text@);
    count - left
}

/// Writes the thirteen lines around `pc`.
#[verifier::rlimit(60)]
pub fn dissasembly_around(traced: &Vec<Range<u16>>, rom: &[u8], pc: u16) -> (text: String)
    ensures
        text@ == around(traced@, rom@, pc),
{
    let mut index: usize = 0;
    while index < traced.len() && !(traced[index].start <= pc && pc < traced[index].end)
        invariant
            index <= traced@.len(),
            find_range(traced@, pc, index as int) == find_range(traced@, pc, 0),
        decreases traced@.len() - index,
    {
        index += 1;
    }
    let mut text = String::new();
    if index < traced.len() {
        let start = traced[index].start;
        let end = traced[index].end;
        let mut starts: Vec<usize> = Vec::new();
        let mut at: usize = start as usize;
        starts.push(at);
        while at < pc as usize && at < rom.len() && at + size_of(rom[at]) as usize <= rom.len()
            invariant
                starts@.len() > 0,
                at <= pc + 3,
                at == starts@[starts@.len() - 1],
                forall|k: int|
                    0 <= k < starts@.len() ==> #[trigger] starts@[k] == walked(
                        rom@,
                        start as int,
                        k as nat,
                    ),
                steps_before(rom@, start as int, pc as int) == starts@.len() - 1 + steps_before(
                    rom@,
                    at as int,
                    pc as int,
                ),
            decreases pc + 3 - at,
        {
            proof {
                lemma_walked_more(rom@, start as int, (starts@.len() - 1) as nat);
            }
            at += size_of(rom[at]) as usize;
            starts.push(at);
        }
        let before: usize = starts.len() - 1;
        let top: usize = if before < 6 {
            6 - before
        } else {
            0
        };
        let anchor: usize = if before < 6 {
            starts[0]
        } else {
            starts[before - 6]
        };
        if at != pc as usize {
            text.append("dissasembly fails, starts = ");
            push_hex4(&mut text, start);
            text.append(", i = ");
            push_hex4(&mut text, (at % 0x10000) as u16);
            text.append(", pc = ");
            push_hex4(&mut text, pc);
            text.append("\n");
        }
        let ghost head = text@;
        assert(head =~= if at != pc {
            failure_line(start, at as int, pc)
        } else {
            Seq::empty()
        });
        push_blank_lines(&mut text, top);
        let shown = push_window(&mut text, rom, anchor, end as usize, pc, 13 - top);
        push_blank_lines(&mut text, 13 - top - shown);
    } else {
        text.append("out of traced memory\n");
        let _ = push_window(&mut text, rom, pc as usize, 0x10000, pc, 7);
    }
    text
}

} // verus!
