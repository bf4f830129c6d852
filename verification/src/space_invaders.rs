//! The arcade board: its memory map, its ports with the shift register and
//! the sound latches, its controls and its screen.

use crate::dissasembler::code_ranges;
use crate::bits::{high_byte, lemma_pair, lemma_wrap16, low_byte, wrap16};
use crate::intel8080::{pushed, word_at, I8080State, IODevices, Memory};
use crate::interpreter::{Interpreter, Machine, MAX_CLOCK};
use vstd::prelude::*;
use vstd::slice::slice_subrange;

verus! {

/// The first address of RAM.
pub const RAM_START: u16 = 0x2000;

/// What the sound hardware is asked to do.
#[derive(Clone, Copy, Debug, PartialEq, Eq, Structural)]
pub enum AudioMessage {
    Play(u8),
    StartUfo,
    StopUfo,
}

/// The memory of the board.
pub struct SpaceInvadersMemory {
    pub memory: [u8; 0x4000],
}

/// The place in the board's memory that an address reaches: itself below
/// 0x4000, and from there on a place in RAM, over and over.
pub open spec fn mirrored(adress: u16) -> int {
    if adress >= 0x4000 {
        adress % 0x2000 + 0x2000
    } else {
        adress as int
    }
}

impl View for SpaceInvadersMemory {
    type V = Seq<u8>;

    open spec fn view(&self) -> Seq<u8> {
        self.memory@
    }
}

impl SpaceInvadersMemory {
    fn place(adress: u16) -> (place: usize)
        ensures
            place == mirrored(adress),
            place < 0x4000,
    {
        if adress >= 0x4000 {
            (adress % 0x2000) as usize + 0x2000
        } else {
            adress as usize
        }
    }
}

impl Memory for SpaceInvadersMemory {
    open spec fn byte_at(state: Seq<u8>, adress: u16) -> u8 {
        state[mirrored(adress)]
    }

    /// A write to ROM changes nothing.
    open spec fn after_write(state: Seq<u8>, adress: u16, value: u8) -> Seq<u8> {
        if mirrored(adress) >= RAM_START {
            state.update(mirrored(adress), value)
        } else {
            state
        }
    }

    open spec fn rom(state: Seq<u8>) -> Seq<u8> {
        state.subrange(0, RAM_START as int)
    }

    fn read(&self, adress: u16) -> (value: u8) {
        self.memory[Self::place(adress)]
    }

    fn write(&mut self, adress: u16, value: u8) {
        let place = Self::place(adress);
        if place >= RAM_START as usize {
            self.memory[place] = value;
        }
    }

    fn get_rom(&mut self) -> (rom: Vec<u8>) {
        let mut rom: Vec<u8> = Vec::with_capacity(0x2000);
        let mut i: usize = 0;
        while i < 0x2000
            invariant
                i <= 0x2000,
                rom@ == self.memory@.subrange(0, i as int),
            decreases 0x2000 - i,
        {
            rom.push(self.memory[i]);
            assert(self.memory@.subrange(0, i as int).push(self.memory@[i as int])
                =~= self.memory@.subrange(0, i + 1));
            i += 1;
        }
        rom
    }
}

/// An address from 0x4000 on reads what the address in RAM that it
/// mirrors reads.
pub proof fn lemma_mirror(state: Seq<u8>, adress: u16)
    requires
        adress >= 0x4000,
    ensures
        SpaceInvadersMemory::byte_at(state, adress) == SpaceInvadersMemory::byte_at(
            state,
            (adress % 0x2000 + 0x2000) as u16,
        ),
        0x2000 <= adress % 0x2000 + 0x2000 < 0x4000,
{
}

/// A byte written to RAM is read back there and at every address that
/// mirrors the place, and no other place changes; a byte written to ROM
/// changes nothing.
pub proof fn lemma_write_then_read(state: Seq<u8>, adress: u16, value: u8, other: u16)
    requires
        state.len() == 0x4000,
    ensures
        SpaceInvadersMemory::byte_at(
            SpaceInvadersMemory::after_write(state, adress, value),
            other,
        ) == if mirrored(other) == mirrored(adress) && mirrored(adress) >= RAM_START {
            value
        } else {
            SpaceInvadersMemory::byte_at(state, other)
        },
{
}

/// A 16-bit value pushed below a stack pointer whose two bytes below lie in
/// RAM is read back from there.
pub proof fn lemma_stack_in_ram(state: Seq<u8>, sp: u16, value: u16)
    requires
        state.len() == 0x4000,
        mirrored(wrap16(sp - 1)) >= RAM_START,
        mirrored(wrap16(sp - 2)) >= RAM_START,
    ensures
        word_at::<SpaceInvadersMemory>(
            pushed::<SpaceInvadersMemory>(state, sp, value),
            wrap16(sp - 2),
        ) == value,
{
    let low = wrap16(sp - 2);
    let high = wrap16(sp - 1);
    lemma_wrap16(sp - 2);
    lemma_wrap16(sp - 1);
    lemma_wrap16(low + 1);
    let first = SpaceInvadersMemory::after_write(state, low, low_byte(value));
    lemma_write_then_read(first, high, high_byte(value), low);
    lemma_write_then_read(first, high, high_byte(value), high);
    lemma_write_then_read(state, low, low_byte(value), low);
    lemma_pair(0, 0, value);
}

/// The ports of the board: three input ports that hold the controls, the
/// shift register behind ports 2, 3 and 4, the bytes last written to the
/// sound ports 3 and 5, and the sounds asked for and not yet played.
pub struct SpaceInvadersDevices {
    pub shift_register: u16,
    pub shift_amount: u8,
    pub read_ports: [u8; 3],
    pub wport3: u8,
    pub wport5: u8,
    pub audio: Vec<AudioMessage>,
}

/// The ports of the board as plain values.
pub struct Ports {
    pub shift_register: u16,
    pub shift_amount: u8,
    pub read_ports: Seq<u8>,
    pub wport3: u8,
    pub wport5: u8,
    pub audio: Seq<AudioMessage>,
}

impl View for SpaceInvadersDevices {
    type V = Ports;

    open spec fn view(&self) -> Ports {
        Ports {
            shift_register: self.shift_register,
            shift_amount: self.shift_amount,
            read_ports: self.read_ports@,
            wport3: self.wport3,
            wport5: self.wport5,
            audio: self.audio@,
        }
    }
}

/// Whether the bits of `mask` are set in `value` and were clear in `previous`.
pub open spec fn rising(previous: u8, value: u8, mask: u8) -> bool {
    value & mask != 0 && previous & mask == 0
}

/// The sound `index` if `mask` is rising.
pub open spec fn sound_on_rise(previous: u8, value: u8, mask: u8, index: u8) -> Seq<AudioMessage> {
    if rising(previous, value, mask) {
        seq![AudioMessage::Play(index)]
    } else {
        Seq::empty()
    }
}

/// What a write to port 3 asks of the sound hardware: bit 0 starts the UFO
/// sound when it rises and stops it when it falls; bits 1 to 3 play sounds
/// 1 to 3 when they rise.
pub open spec fn sounds_of_port3(previous: u8, value: u8) -> Seq<AudioMessage> {
    (if rising(previous, value, 0x01) {
        seq![AudioMessage::StartUfo]
    } else if rising(value, previous, 0x01) {
        seq![AudioMessage::StopUfo]
    } else {
        Seq::empty()
    }) + sound_on_rise(previous, value, 0x02, 1) + sound_on_rise(previous, value, 0x04, 2)
        + sound_on_rise(previous, value, 0x08, 3)
}

/// What a write to port 5 asks of the sound hardware: bits 0 to 4 play
/// sounds 4 to 8 when they rise.
pub open spec fn sounds_of_port5(previous: u8, value: u8) -> Seq<AudioMessage> {
    sound_on_rise(previous, value, 0x01, 4) + sound_on_rise(previous, value, 0x02, 5)
        + sound_on_rise(previous, value, 0x04, 6) + sound_on_rise(previous, value, 0x08, 7)
        + sound_on_rise(previous, value, 0x10, 8)
}

/// The byte that port 3 shows: the eight bits of the shift register that
/// start `amount` bits below its top.
pub open spec fn shifted(register: u16, amount: u8) -> u8 {
    ((register >> ((8 - amount % 8) as u16)) & 0xff) as u8
}

/// The bits that a key sets in input port 1 while it is down. Keys are
/// numbered 1 to 6: left, right, shoot, coin, start for one player, start
/// for two.
pub open spec fn key_bits_port1(key: u8) -> u8 {
    if key == 1 {
        0x20
    } else if key == 2 {
        0x40
    } else if key == 3 {
        0x10
    } else if key == 4 {
        0x01
    } else if key == 5 {
        0x04
    } else if key == 6 {
        0x02
    } else {
        0
    }
}

/// The bits that a key sets in input port 2 while it is down: left, right
/// and shoot as in port 1, for the second player.
pub open spec fn key_bits_port2(key: u8) -> u8 {
    if key == 1 {
        0x20
    } else if key == 2 {
        0x40
    } else if key == 3 {
        0x10
    } else {
        0
    }
}

impl Ports {
    pub open spec fn with_key_down(self, key: u8) -> Ports {
        Ports {
            read_ports: self.read_ports.update(1, self.read_ports[1] | key_bits_port1(key)).update(
                2,
                self.read_ports[2] | key_bits_port2(key),
            ),
            ..self
        }
    }

    pub open spec fn with_key_up(self, key: u8) -> Ports {
        Ports {
            read_ports: self.read_ports.update(1, self.read_ports[1] & !key_bits_port1(key)).update(
                2,
                self.read_ports[2] & !key_bits_port2(key),
            ),
            ..self
        }
    }
}

fn key_bits(key: u8) -> (bits: (u8, u8))
    ensures
        bits.0 == key_bits_port1(key),
        bits.1 == key_bits_port2(key),
{
    if key == 1 {
        (0x20, 0x20)
    } else if key == 2 {
        (0x40, 0x40)
    } else if key == 3 {
        (0x10, 0x10)
    } else if key == 4 {
        (0x01, 0)
    } else if key == 5 {
        (0x04, 0)
    } else if key == 6 {
        (0x02, 0)
    } else {
        (0, 0)
    }
}

impl SpaceInvadersDevices {
    pub fn new(ports: [u8; 3]) -> (devices: SpaceInvadersDevices)
        ensures
            devices@ == (Ports {
                shift_register: 0,
                shift_amount: 0,
                read_ports: ports@,
                wport3: 0,
                wport5: 0,
                audio: Seq::empty(),
            }),
    {
        SpaceInvadersDevices {
            shift_register: 0,
            shift_amount: 0,
            read_ports: ports,
            wport3: 0,
            wport5: 0,
            audio: Vec::new(),
        }
    }

    fn sound_on_rise(&mut self, previous: u8, value: u8, mask: u8, index: u8)
        ensures
            final(self)@ == (Ports {
                audio: old(self)@.audio + sound_on_rise(previous, value, mask, index),
                ..old(self)@
            }),
    {
        if value & mask != 0 && previous & mask == 0 {
            self.audio.push(AudioMessage::Play(index));
        }
        assert(self.audio@ =~= old(self)@.audio + sound_on_rise(previous, value, mask, index));
    }

    /// Hands out the sounds asked for since the last call, oldest first.
    pub fn take_audio(&mut self) -> (messages: Vec<AudioMessage>)
        ensures
            messages@ == old(self)@.audio,
            final(self)@ == (Ports { audio: Seq::empty(), ..old(self)@ }),
    {
        let mut messages: Vec<AudioMessage> = Vec::new();
        std::mem::swap(&mut messages, &mut self.audio);
        messages
    }

    /// Sets the bits of a key in the input ports.
    pub fn key_down(&mut self, key: u8)
        ensures
            final(self)@ == old(self)@.with_key_down(key),
    {
        let (first, second) = key_bits(key);
        self.read_ports[1] = self.read_ports[1] | first;
        self.read_ports[2] = self.read_ports[2] | second;
    }

    /// Clears the bits of a key in the input ports.
    pub fn key_up(&mut self, key: u8)
        ensures
            final(self)@ == old(self)@.with_key_up(key),
    {
        let (first, second) = key_bits(key);
        self.read_ports[1] = self.read_ports[1] & !first;
        self.read_ports[2] = self.read_ports[2] & !second;
    }
}

impl IODevices for SpaceInvadersDevices {
    /// Ports 0 to 2 show the controls, port 3 the shift register; every
    /// other port reads 0.
    open spec fn input(state: Ports, device: u8) -> u8 {
        if device <= 2 {
            state.read_ports[device as int]
        } else if device == 3 {
            shifted(state.shift_register, state.shift_amount)
        } else {
            0
        }
    }

    open spec fn after_read(state: Ports, device: u8) -> Ports {
        state
    }

    /// Port 2 sets the shift amount to the low three bits written. Port 4
    /// moves the high byte of the shift register to its low byte and the
    /// byte written to its high byte. Ports 3 and 5 keep the byte written
    /// and ask for the sounds of the bits that changed. A write to any
    /// other port is lost.
    open spec fn after_write(state: Ports, device: u8, value: u8) -> Ports {
        if device == 2 {
            Ports { shift_amount: value & 0x07, ..state }
        } else if device == 3 {
            Ports {
                wport3: value,
                audio: state.audio + sounds_of_port3(state.wport3, value),
                ..state
            }
        } else if device == 4 {
            Ports {
                shift_register: (state.shift_register >> 8) | ((value as u16) << 8),
                ..state
            }
        } else if device == 5 {
            Ports {
                wport5: value,
                audio: state.audio + sounds_of_port5(state.wport5, value),
                ..state
            }
        } else {
            state
        }
    }

    fn read(&mut self, device: u8) -> (value: u8) {
        if device <= 2 {
            self.read_ports[device as usize]
        } else if device == 3 {
            ((self.shift_register >> ((8 - self.shift_amount % 8) as u16)) & 0xff) as u8
        } else {
            0
        }
    }

    fn write(&mut self, device: u8, value: u8) {
        if device == 2 {
            self.shift_amount = value & 0x07;
        } else if device == 3 {
            let previous = self.wport3;
            if value & 0x01 != 0 && previous & 0x01 == 0 {
                self.audio.push(AudioMessage::StartUfo);
            } else if previous & 0x01 != 0 && value & 0x01 == 0 {
                self.audio.push(AudioMessage::StopUfo);
            }
            self.sound_on_rise(previous, value, 0x02, 1);
            self.sound_on_rise(previous, value, 0x04, 2);
            self.sound_on_rise(previous, value, 0x08, 3);
            self.wport3 = value;
            assert(self.audio@ =~= old(self)@.audio + sounds_of_port3(previous, value));
        } else if device == 4 {
            self.shift_register = (self.shift_register >> 8) | ((value as u16) << 8);
        } else if device == 5 {
            let previous = self.wport5;
            self.sound_on_rise(previous, value, 0x01, 4);
            self.sound_on_rise(previous, value, 0x02, 5);
            self.sound_on_rise(previous, value, 0x04, 6);
            self.sound_on_rise(previous, value, 0x08, 7);
            self.sound_on_rise(previous, value, 0x10, 8);
            self.wport5 = value;
            assert(self.audio@ =~= old(self)@.audio + sounds_of_port5(previous, value));
        }
    }
}

/// The width of the screen in pixels, as it stands in the cabinet.
pub const SCREEN_WIDTH: u32 = 224;

/// The height of the screen in pixels.
pub const SCREEN_HEIGHT: u32 = 256;

/// The number of bytes of the picture: four for each pixel.
pub const SCREEN_BYTES: usize = 229376;

/// The number of bytes of video memory: one bit for each pixel.
pub const VIDEO_BYTES: usize = 7168;

/// The size of one of the four parts of the ROM.
pub const ROM_PART: usize = 0x800;

/// `buffer` with the first `ROM_PART` bytes of `part`, or all of them if
/// they are fewer, copied to `at`.
pub open spec fn placed(buffer: Seq<u8>, at: int, part: Seq<u8>) -> Seq<u8> {
    Seq::new(
        buffer.len(),
        |i: int|
            if at <= i < at + part.len() && i < at + ROM_PART {
                part[i - at]
            } else {
                buffer[i]
            },
    )
}

/// `buffer` with the four parts of the ROM at 0x0000, 0x0800, 0x1000 and
/// 0x1800.
pub open spec fn loaded(buffer: Seq<u8>, h: Seq<u8>, g: Seq<u8>, f: Seq<u8>, e: Seq<u8>) -> Seq<
    u8,
> {
    placed(placed(placed(placed(buffer, 0, h), 0x800, g), 0x1000, f), 0x1800, e)
}

fn place(buffer: &mut [u8], at: usize, part: &[u8])
    requires
        at + ROM_PART <= old(buffer)@.len(),
    ensures
        final(buffer)@ == placed(old(buffer)@, at as int, part@),
{
    let count: usize = if part.len() < ROM_PART {
        part.len()
    } else {
        ROM_PART
    };
    let size = buffer.len();
    let mut i: usize = 0;
    while i < count
        invariant
            i <= count,
            size == buffer@.len(),
            count <= ROM_PART,
            count <= part@.len(),
            at + ROM_PART <= buffer@.len(),
            buffer@.len() == old(buffer)@.len(),
            forall|k: int| 0 <= k < buffer@.len() ==> buffer@[k] == if at <= k < at + i {
                part@[k - at]
            } else {
                old(buffer)@[k]
            },
        decreases count - i,
    {
        buffer[at + i] = part[i];
        i += 1;
    }
    assert(buffer@ =~= placed(old(buffer)@, at as int, part@));
}

/// Copies the four parts of the ROM to their places at the start of
/// `buffer`.
pub fn load_rom(buffer: &mut [u8], h: &[u8], g: &[u8], f: &[u8], e: &[u8])
    requires
        old(buffer)@.len() >= 0x2000,
    ensures
        final(buffer)@ == loaded(old(buffer)@, h@, g@, f@, e@),
{
    place(buffer, 0, h);
    place(buffer, 0x800, g);
    place(buffer, 0x1000, f);
    place(buffer, 0x1800, e);
}

/// Whether the pixel in column `x` and row `y` is lit. Video memory holds
/// the screen turned on its side: one bit a pixel, column after column, the
/// lowest bit first.
pub open spec fn lit(memory: Seq<u8>, x: int, y: int) -> bool {
    (memory[(x * 256 + y) / 8] >> (((x * 256 + y) % 8) as u8)) & 1 != 0
}

/// Where the four bytes of a pixel stand in the picture, which is upright:
/// row 255 of video memory is its first line.
pub open spec fn pixel_offset(x: int, y: int) -> int {
    ((255 - y) * 224 + x) * 4
}

/// Where a lit pixel shows red.
pub open spec fn red_on(x: int, y: int) -> bool {
    y >= 72 || (y < 16 && 16 <= x < 102)
}

/// Where a lit pixel shows green.
pub open spec fn green_on(x: int, y: int) -> bool {
    !(192 <= y < 224)
}

/// Where a lit pixel shows blue.
pub open spec fn blue_on(x: int, y: int) -> bool {
    72 <= y < 192 || y >= 224 || (y < 16 && 16 <= x < 102)
}

pub open spec fn channel(on: bool, lit: bool) -> u8 {
    if on && lit {
        0xff
    } else {
        0
    }
}

/// Whether `screen` shows the pixel in column `x` and row `y` as video
/// memory has it: each colour full or off, and opaque.
pub open spec fn shows(screen: Seq<u8>, memory: Seq<u8>, x: int, y: int) -> bool {
    &&& screen[pixel_offset(x, y)] == channel(red_on(x, y), lit(memory, x, y))
    &&& screen[pixel_offset(x, y) + 1] == channel(green_on(x, y), lit(memory, x, y))
    &&& screen[pixel_offset(x, y) + 2] == channel(blue_on(x, y), lit(memory, x, y))
    &&& screen[pixel_offset(x, y) + 3] == 0xff
}

/// The bytes of two pixels do not overlap.
proof fn lemma_pixels_apart(a: int, b: int, x: int, y: int)
    requires
        0 <= a < 224,
        0 <= b < 256,
        0 <= x < 224,
        0 <= y < 256,
        a != x || b != y,
    ensures
        pixel_offset(a, b) + 3 < pixel_offset(x, y) || pixel_offset(a, b) > pixel_offset(x, y) + 3,
{
}

/// The bytes of every pixel lie in the picture.
proof fn lemma_pixel_in_screen(x: int, y: int)
    requires
        0 <= x < 224,
        0 <= y < 256,
    ensures
        0 <= pixel_offset(x, y),
        pixel_offset(x, y) + 3 < SCREEN_BYTES,
{
}

fn draw_pixel(screen: &mut [u8], memory: &[u8], x: usize, y: usize)
    requires
        old(screen)@.len() >= SCREEN_BYTES,
        memory@.len() >= VIDEO_BYTES,
        x < 224,
        y < 256,
    ensures
        final(screen)@.len() == old(screen)@.len(),
        shows(final(screen)@, memory@, x as int, y as int),
        forall|i: int|
            0 <= i < old(screen)@.len() && !(pixel_offset(x as int, y as int) <= i <= pixel_offset(
                x as int,
                y as int,
            ) + 3) ==> final(screen)@[i] == old(screen)@[i],
{
    let i: usize = x * 256 + y;
    let is_lit = (memory[i / 8] >> ((i % 8) as u8)) & 1 != 0;
    let p: usize = ((255 - y) * 224 + x) * 4;
    screen[p] = if is_lit && (y >= 72 || (y < 16 && 16 <= x && x < 102)) {
        0xff
    } else {
        0
    };
    screen[p + 1] = if is_lit && !(192 <= y && y < 224) {
        0xff
    } else {
        0
    };
    screen[p + 2] = if is_lit && ((72 <= y && y < 192) || y >= 224 || (y < 16 && 16 <= x && x
        < 102)) {
        0xff
    } else {
        0
    };
    screen[p + 3] = 0xff;
}

/// Draws video memory into `screen`, four bytes a pixel: red, green, blue
/// and opacity.
#[verifier::rlimit(60)]
pub fn render_screen(screen: &mut [u8], memory: &[u8])
    requires
        old(screen)@.len() >= SCREEN_BYTES,
        memory@.len() >= VIDEO_BYTES,
    ensures
        final(screen)@.len() == old(screen)@.len(),
        forall|x: int, y: int|
            0 <= x < 224 && 0 <= y < 256 ==> #[trigger] shows(final(screen)@, memory@, x, y),
        forall|i: int|
            SCREEN_BYTES <= i < old(screen)@.len() ==> final(screen)@[i] == old(screen)@[i],
{
    let mut x: usize = 0;
    while x < 224
        invariant
            x <= 224,
            screen@.len() == old(screen)@.len(),
            screen@.len() >= SCREEN_BYTES,
            memory@.len() >= VIDEO_BYTES,
            forall|a: int, b: int|
                0 <= a < x && 0 <= b < 256 ==> #[trigger] shows(screen@, memory@, a, b),
            forall|i: int| SCREEN_BYTES <= i < screen@.len() ==> screen@[i] == old(screen)@[i],
        decreases 224 - x,
    {
        let mut y: usize = 0;
        while y < 256
            invariant
                x < 224,
                y <= 256,
                screen@.len() == old(screen)@.len(),
                screen@.len() >= SCREEN_BYTES,
                memory@.len() >= VIDEO_BYTES,
                forall|a: int, b: int|
                    (0 <= a < x && 0 <= b < 256) || (a == x && 0 <= b < y) ==> #[trigger] shows(
                        screen@,
                        memory@,
                        a,
                        b,
                    ),
                forall|i: int|
                    SCREEN_BYTES <= i < screen@.len() ==> screen@[i] == old(screen)@[i],
            decreases 256 - y,
        {
            let ghost before = screen@;
            draw_pixel(screen, memory, x, y);
            proof {
                assert forall|a: int, b: int|
                    (0 <= a < x && 0 <= b < 256) || (a == x && 0 <= b < y) implies #[trigger] shows(
                    screen@,
                    memory@,
                    a,
                    b,
                ) by {
                    assert(shows(before, memory@, a, b));
                    lemma_pixels_apart(a, b, x as int, y as int);
                    lemma_pixel_in_screen(a, b);
                }
                lemma_pixel_in_screen(x as int, y as int);
            }
            y += 1;
        }
        x += 1;
    }
}

/// The board with its processor.
pub type Arcade = Interpreter<SpaceInvadersMemory, SpaceInvadersDevices>;

/// The cycles of half a frame: the processor runs at two million cycles a
/// second and is interrupted 120 times a second.
pub const HALF_FRAME: u32 = 16666;

/// The interrupt in the middle of a frame: RST 2.
pub const MID_FRAME: u8 = 0xd7;

/// The interrupt at the end of a frame: RST 1.
pub const END_FRAME: u8 = 0xcf;

/// The input ports with no key down.
pub open spec fn idle_ports() -> Seq<u8> {
    seq![0x0fu8, 0x08u8, 0x00u8]
}

/// Makes the board with the four parts of its ROM loaded, the keys up, and
/// the processor at address 0.
pub fn create_interpreter(h: &[u8], g: &[u8], f: &[u8], e: &[u8]) -> (arcade: Arcade)
    ensures
        arcade.state == I8080State::initial(),
        arcade.memory@ == loaded(Seq::new(0x4000, |i: int| 0u8), h@, g@, f@, e@),
        arcade.devices@ == (Ports {
            shift_register: 0,
            shift_amount: 0,
            read_ports: idle_ports(),
            wport3: 0,
            wport5: 0,
            audio: Seq::empty(),
        }),
        arcade.clock_count == 0,
        arcade.target_clock == 0,
        !arcade.debug,
        arcade.breakpoints@ == Set::<u16>::empty(),
        arcade.traced@ == code_ranges(arcade.memory@.subrange(0, 0x2000), seq![0u16, 8u16, 16u16]),
{
    let mut memory: [u8; 0x4000] = [0; 0x4000];
    assert(memory@ =~= Seq::new(0x4000, |i: int| 0u8));
    load_rom(&mut memory, h, g, f, e);
    let ports: [u8; 3] = [0x0f, 0x08, 0x00];
    assert(ports@ =~= idle_ports());
    let entries: [u16; 3] = [0, 8, 16];
    assert(entries@ =~= seq![0u16, 8u16, 16u16]);
    Interpreter::new(
        SpaceInvadersDevices::new(ports),
        SpaceInvadersMemory { memory },
        entries.as_slice(),
    )
}

/// Sets the bits of a key in the input ports of the board.
pub fn key_down(arcade: &mut Arcade, key: u8)
    ensures
        final(arcade).devices@ == old(arcade).devices@.with_key_down(key),
        final(arcade).state == old(arcade).state,
        final(arcade).memory == old(arcade).memory,
        final(arcade).clock_count == old(arcade).clock_count,
        final(arcade).settings() == old(arcade).settings(),
{
    arcade.devices.key_down(key);
}

/// Clears the bits of a key in the input ports of the board.
pub fn key_up(arcade: &mut Arcade, key: u8)
    ensures
        final(arcade).devices@ == old(arcade).devices@.with_key_up(key),
        final(arcade).state == old(arcade).state,
        final(arcade).memory == old(arcade).memory,
        final(arcade).clock_count == old(arcade).clock_count,
        final(arcade).settings() == old(arcade).settings(),
{
    arcade.devices.key_up(key);
}

/// The board after one frame: it runs for half a frame, takes the
/// interrupt of the middle of the frame, runs for the other half and takes
/// the interrupt of the end, with whether it is in debug mode then.
pub open spec fn after_frame(
    machine: Machine<SpaceInvadersMemory, SpaceInvadersDevices>,
    debug: bool,
    target: int,
    breakpoints: Set<u16>,
) -> (Machine<SpaceInvadersMemory, SpaceInvadersDevices>, bool) {
    let first = machine.resumed(debug, target + HALF_FRAME, breakpoints);
    let second = first.0.interrupted(MID_FRAME).resumed(
        first.1,
        target + 2 * HALF_FRAME,
        breakpoints,
    );
    (second.0.interrupted(END_FRAME), second.1)
}

/// Runs the board for one frame and returns the picture it shows then.
#[verifier::rlimit(60)]
pub fn run_frame(arcade: &mut Arcade) -> (screen: Vec<u8>)
    requires
        old(arcade).clock_count + 2 * MAX_CLOCK <= u64::MAX,
        old(arcade).target_clock + 2 * HALF_FRAME + 3 * MAX_CLOCK <= u64::MAX,
    ensures
        (final(arcade)@, final(arcade).debug) == after_frame(
            old(arcade)@,
            old(arcade).debug,
            old(arcade).target_clock as int,
            old(arcade).breakpoints@,
        ),
        final(arcade).target_clock == old(arcade).target_clock + 2 * HALF_FRAME,
        final(arcade).breakpoints == old(arcade).breakpoints,
        final(arcade).traced == old(arcade).traced,
        screen@.len() == SCREEN_BYTES,
        forall|x: int, y: int|
            0 <= x < 224 && 0 <= y < 256 ==> #[trigger] shows(
                screen@,
                final(arcade).memory@.subrange(0x2400, 0x4000),
                x,
                y,
            ),
{
    proof {
        let first = old(arcade)@.resumed(
            old(arcade).debug,
            old(arcade).target_clock + HALF_FRAME,
            old(arcade).breakpoints@,
        );
        old(arcade)@.lemma_ran_clock(
            old(arcade).target_clock + HALF_FRAME,
            old(arcade).breakpoints@,
        );
        first.0.interrupted(MID_FRAME).lemma_ran_clock(
            old(arcade).target_clock + 2 * HALF_FRAME,
            old(arcade).breakpoints@,
        );
        old(arcade)@.lemma_interrupted_clock(MID_FRAME);
        first.0.lemma_interrupted_clock(MID_FRAME);
    }
    let _ = arcade.run(HALF_FRAME);
    arcade.interrupt(MID_FRAME);
    let _ = arcade.run(HALF_FRAME);
    arcade.interrupt(END_FRAME);
    let mut screen: Vec<u8> = vec![0u8; SCREEN_BYTES];
    let video = slice_subrange(arcade.memory.memory.as_slice(), 0x2400, 0x4000);
    render_screen(screen.as_mut_slice(), video);
    screen
}

} // verus!
