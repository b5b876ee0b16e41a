//! The bytecode script codec: a fixed-size play-data prelude whose size
//! a discriminant byte selects, followed by actions (an 8-byte header
//! and opcoded instructions until an `0xFF` instruction), terminated by
//! the byte pair `0xFD 0x00`.  Argument sizes and signedness come from
//! an external instruction table.

use vstd::prelude::*;
use crate::bytes::{spec_u16_le, spec_u16_le_bytes, spec_u32_le, spec_u32_le_bytes, push_u16_le,
    push_u32_le, u16_from_le, u32_from_le};
use crate::error::CodecError;

verus! {

/// One argument of a script instruction.
#[derive(Clone, Copy, Debug, PartialEq, Eq, Structural)]
pub struct InstructionArgument {
    /// Stored size in bytes: 1, 2, or anything else for 4.
    pub size: u8,
    /// The decoded value (sign-extended when `signed`).
    pub value: i64,
    /// Whether the stored bytes are read as a signed number.
    pub signed: bool,
}

/// One script instruction: an opcode and its arguments.
pub struct Instruction {
    pub id: u8,
    pub arguments: Vec<InstructionArgument>,
}

/// One script action: the 8-byte header and its instructions.
pub struct ScriptAction {
    pub flags: u32,
    pub lvflag: u16,
    pub damage: u8,
    pub flag2: u8,
    pub instructions: Vec<Instruction>,
}

/// The argument layout of one opcode in the instruction table.
#[derive(Clone, Copy, Debug, PartialEq, Eq, Structural)]
pub struct ArgSpec {
    pub size: u8,
    pub signed: bool,
}

/// One opcode's entry in the instruction table.
pub struct InstructionDef {
    pub args: Vec<ArgSpec>,
}

/// The spec-level shadow of an instruction: its opcode and arguments.
pub open spec fn spec_instr_shadow(i: Instruction) -> (u8, Seq<InstructionArgument>) {
    (i.id, i.arguments@)
}

/// The spec-level shadow of an action.
pub open spec fn spec_action_shadow(a: ScriptAction) -> (
    u32,
    u16,
    u8,
    u8,
    Seq<(u8, Seq<InstructionArgument>)>,
) {
    (a.flags, a.lvflag, a.damage, a.flag2, a.instructions@.map_values(|i: Instruction| spec_instr_shadow(i)))
}

/// The total stored size of an argument list.
pub open spec fn spec_args_size(specs: Seq<ArgSpec>) -> int
    decreases specs.len(),
{
    if specs.len() == 0 {
        0
    } else {
        spec_arg_width(specs[0].size) + spec_args_size(specs.subrange(1, specs.len() as int))
    }
}

/// The stored width a size byte selects: 1, 2, or 4.
pub open spec fn spec_arg_width(size: u8) -> int {
    if size == 1 {
        1
    } else if size == 2 {
        2
    } else {
        4
    }
}

/// The decoded value of one argument at `cursor`.
pub open spec fn spec_arg_value(d: Seq<u8>, cursor: int, size: u8, signed: bool) -> i64 {
    if signed {
        if size == 1 {
            (d[cursor] as i8) as i64
        } else if size == 2 {
            (spec_u16_le(d[cursor], d[cursor + 1]) as i16) as i64
        } else {
            (spec_u32_le(d[cursor], d[cursor + 1], d[cursor + 2], d[cursor + 3]) as i32) as i64
        }
    } else {
        if size == 1 {
            d[cursor] as i64
        } else if size == 2 {
            spec_u16_le(d[cursor], d[cursor + 1]) as i64
        } else {
            spec_u32_le(d[cursor], d[cursor + 1], d[cursor + 2], d[cursor + 3]) as i64
        }
    }
}

/// Parses an argument list at `cursor`: `None` when the buffer ends
/// before the arguments do.  On success the cursor advances by the
/// list's total stored size.
pub open spec fn spec_parse_args(d: Seq<u8>, cursor: int, specs: Seq<ArgSpec>) -> Option<
    Seq<InstructionArgument>,
>
    decreases specs.len(),
{
    if specs.len() == 0 {
        Some(Seq::empty())
    } else {
        let w = spec_arg_width(specs[0].size);
        if cursor + w > d.len() {
            None
        } else {
            let arg = InstructionArgument {
                size: specs[0].size,
                value: spec_arg_value(d, cursor, specs[0].size, specs[0].signed),
                signed: specs[0].signed,
            };
            match spec_parse_args(d, cursor + w, specs.subrange(1, specs.len() as int)) {
                None => None,
                Some(rest) => Some(seq![arg] + rest),
            }
        }
    }
}

/// Parses the instructions of one action starting at `cursor`: each is
/// an opcode byte and its table-defined arguments; an `0xFF` opcode
/// ends the action; the list also ends at the end of the buffer.
pub open spec fn spec_parse_instrs(d: Seq<u8>, cursor: int, db: Seq<Seq<ArgSpec>>) -> Option<
    (Seq<(u8, Seq<InstructionArgument>)>, int),
>
    decreases d.len() - cursor,
{
    if cursor < 0 || cursor >= d.len() {
        Some((Seq::empty(), cursor))
    } else {
        let id = d[cursor];
        let specs = db[id as int];
        match spec_parse_args(d, cursor + 1, specs) {
            None => None,
            Some(args) => {
                let c2 = cursor + 1 + spec_args_size(specs);
                if id == 0xFF {
                    Some((seq![(id, args)], c2))
                } else {
                    if c2 <= cursor || c2 > d.len() {
                        None
                    } else {
                        match spec_parse_instrs(d, c2, db) {
                            None => None,
                            Some(rest) => Some((seq![(id, args)] + rest.0, rest.1)),
                        }
                    }
                }
            },
        }
    }
}

/// Parses the action list at `cursor`: stops at the `0xFD 0x00`
/// terminator or the end of the buffer; fails when an action header or
/// an argument runs off the end.
pub open spec fn spec_parse_actions(d: Seq<u8>, cursor: int, db: Seq<Seq<ArgSpec>>) -> Option<
    Seq<(u32, u16, u8, u8, Seq<(u8, Seq<InstructionArgument>)>)>,
>
    decreases d.len() - cursor,
{
    if cursor < 0 || cursor >= d.len() {
        Some(Seq::empty())
    } else if cursor + 2 <= d.len() && d[cursor] == 0xFD && d[cursor + 1] == 0x00 {
        Some(Seq::empty())
    } else if cursor + 8 > d.len() {
        None
    } else {
        let flags = spec_u32_le(d[cursor], d[cursor + 1], d[cursor + 2], d[cursor + 3]);
        let lvflag = spec_u16_le(d[cursor + 4], d[cursor + 5]);
        let damage = d[cursor + 6];
        let flag2 = d[cursor + 7];
        match spec_parse_instrs(d, cursor + 8, db) {
            None => None,
            Some(parsed) => {
                if parsed.1 <= cursor || parsed.1 > d.len() {
                    None
                } else {
                    match spec_parse_actions(d, parsed.1, db) {
                        None => None,
                        Some(rest) => Some(seq![(flags, lvflag, damage, flag2, parsed.0)] + rest),
                    }
                }
            },
        }
    }
}

impl InstructionArgument {
    /// The stored bytes of this argument (1, 2 or 4 bytes, truncating
    /// the value).
    pub fn to_bin(&self) -> (r: Vec<u8>)
        ensures
            r@ == spec_arg_bytes(*self),
    {
        let mut bin_data: Vec<u8> = Vec::new();
        if self.size == 1 {
            bin_data.push(self.value as u8);
        } else if self.size == 2 {
            push_u16_le(&mut bin_data, self.value as u16);
            proof {
                assert(bin_data@ =~= spec_arg_bytes(*self));
            }
        } else {
            push_u32_le(&mut bin_data, self.value as u32);
            proof {
                assert(bin_data@ =~= spec_arg_bytes(*self));
            }
        }
        bin_data
    }

    /// Builds an argument from decoded parts.
    pub fn from_data(size: u8, value: i64, signed: bool) -> (r: InstructionArgument)
        ensures
            r.size == size && r.value == value && r.signed == signed,
    {
        InstructionArgument { size, value, signed }
    }
}

/// The stored bytes of one argument.
pub open spec fn spec_arg_bytes(a: InstructionArgument) -> Seq<u8> {
    if a.size == 1 {
        seq![a.value as u8]
    } else if a.size == 2 {
        spec_u16_le_bytes(a.value as u16)
    } else {
        spec_u32_le_bytes(a.value as u32)
    }
}

/// The stored bytes of an argument list.
pub open spec fn spec_args_bytes(args: Seq<InstructionArgument>) -> Seq<u8>
    decreases args.len(),
{
    if args.len() == 0 {
        Seq::empty()
    } else {
        spec_arg_bytes(args[0]) + spec_args_bytes(args.subrange(1, args.len() as int))
    }
}

impl Instruction {
    /// The stored bytes of this instruction: the opcode then its
    /// arguments.
    pub fn to_bin(&self) -> (r: Vec<u8>)
        ensures
            r@ == seq![self.id] + spec_args_bytes(self.arguments@),
    {
        let mut bin_data: Vec<u8> = Vec::new();
        bin_data.push(self.id);
        let mut i: usize = 0;
        while i < self.arguments.len()
            invariant
                i <= self.arguments@.len(),
                bin_data@ == seq![self.id] + spec_args_bytes(self.arguments@.subrange(0, i as int)),
            decreases self.arguments@.len() - i,
        {
            let mut piece = self.arguments[i].to_bin();
            bin_data.append(&mut piece);
            proof {
                lemma_args_bytes_snoc(self.arguments@, i as int);
            }
            i += 1;
        }
        proof {
            assert(self.arguments@.subrange(0, self.arguments@.len() as int) =~= self.arguments@);
        }
        bin_data
    }

    /// Builds an instruction from decoded parts.
    pub fn from_data(id: u8, arguments: Vec<InstructionArgument>) -> (r: Instruction)
        ensures
            r.id == id && r.arguments == arguments,
    {
        Instruction { id, arguments }
    }
}

/// Appending one argument extends the serialized list by its bytes.
proof fn lemma_args_bytes_snoc(args: Seq<InstructionArgument>, i: int)
    requires
        0 <= i < args.len(),
    ensures
        spec_args_bytes(args.subrange(0, i + 1)) == spec_args_bytes(args.subrange(0, i))
            + spec_arg_bytes(args[i]),
    decreases i,
{
    if i == 0 {
        let s1 = args.subrange(0, 1);
        assert(s1.len() == 1);
        assert(s1[0] == args[0]);
        assert(s1.subrange(1, 1) =~= Seq::<InstructionArgument>::empty());
        assert(spec_args_bytes(Seq::<InstructionArgument>::empty()) =~= Seq::<u8>::empty());
        assert(spec_args_bytes(s1) == spec_arg_bytes(s1[0]) + spec_args_bytes(s1.subrange(1, 1)));
        assert(spec_args_bytes(args.subrange(0, 0)) =~= Seq::<u8>::empty());
        assert(spec_args_bytes(s1) =~= spec_arg_bytes(args[0]));
        assert(spec_args_bytes(args.subrange(0, 0)) + spec_arg_bytes(args[0]) =~= spec_arg_bytes(
            args[0],
        ));
    } else {
        let rest = args.subrange(1, args.len() as int);
        lemma_args_bytes_snoc(rest, i - 1);
        assert(args.subrange(0, i + 1)[0] == args[0]);
        assert(args.subrange(0, i + 1).subrange(1, i + 1) =~= rest.subrange(0, i));
        assert(args.subrange(0, i)[0] == args[0]);
        assert(args.subrange(0, i).subrange(1, i) =~= rest.subrange(0, i - 1));
        assert(rest[i - 1] == args[i]);
        assert(spec_args_bytes(args.subrange(0, i + 1)) =~= spec_args_bytes(args.subrange(0, i))
            + spec_arg_bytes(args[i]));
    }
}

/// The stored bytes of an instruction list.
pub open spec fn spec_instrs_bytes(instrs: Seq<Instruction>) -> Seq<u8>
    decreases instrs.len(),
{
    if instrs.len() == 0 {
        Seq::empty()
    } else {
        seq![instrs[0].id] + spec_args_bytes(instrs[0].arguments@) + spec_instrs_bytes(
            instrs.subrange(1, instrs.len() as int),
        )
    }
}

/// Appending one instruction extends the serialized list by its bytes.
proof fn lemma_instrs_bytes_snoc(instrs: Seq<Instruction>, i: int)
    requires
        0 <= i < instrs.len(),
    ensures
        spec_instrs_bytes(instrs.subrange(0, i + 1)) == spec_instrs_bytes(instrs.subrange(0, i)) + (
        seq![instrs[i].id] + spec_args_bytes(instrs[i].arguments@)),
    decreases i,
{
    if i == 0 {
        let s1 = instrs.subrange(0, 1);
        assert(s1.len() == 1);
        assert(s1[0] == instrs[0]);
        assert(s1.subrange(1, 1) =~= Seq::<Instruction>::empty());
        assert(spec_instrs_bytes(Seq::<Instruction>::empty()) =~= Seq::<u8>::empty());
        assert(spec_instrs_bytes(s1) == seq![s1[0].id] + spec_args_bytes(s1[0].arguments@)
            + spec_instrs_bytes(s1.subrange(1, 1)));
        assert(spec_instrs_bytes(instrs.subrange(0, 0)) =~= Seq::<u8>::empty());
        assert(spec_instrs_bytes(s1) =~= seq![instrs[0].id] + spec_args_bytes(
            instrs[0].arguments@,
        ));
        assert(spec_instrs_bytes(instrs.subrange(0, 0)) + (seq![instrs[0].id] + spec_args_bytes(
            instrs[0].arguments@,
        )) =~= seq![instrs[0].id] + spec_args_bytes(instrs[0].arguments@));
    } else {
        let rest = instrs.subrange(1, instrs.len() as int);
        lemma_instrs_bytes_snoc(rest, i - 1);
        assert(instrs.subrange(0, i + 1)[0] == instrs[0]);
        assert(instrs.subrange(0, i + 1).subrange(1, i + 1) =~= rest.subrange(0, i));
        assert(instrs.subrange(0, i)[0] == instrs[0]);
        assert(instrs.subrange(0, i).subrange(1, i) =~= rest.subrange(0, i - 1));
        assert(rest[i - 1] == instrs[i]);
        assert(spec_instrs_bytes(instrs.subrange(0, i + 1)) =~= spec_instrs_bytes(
            instrs.subrange(0, i),
        ) + (seq![instrs[i].id] + spec_args_bytes(instrs[i].arguments@)));
    }
}

impl ScriptAction {
    /// The stored bytes of this action: the 8-byte header then its
    /// instructions.
    pub fn to_bin(&self) -> (r: Vec<u8>)
        ensures
            r@ == spec_u32_le_bytes(self.flags) + spec_u16_le_bytes(self.lvflag) + seq![
                self.damage,
                self.flag2,
            ] + spec_instrs_bytes(self.instructions@),
    {
        let mut bin_data: Vec<u8> = Vec::new();
        push_u32_le(&mut bin_data, self.flags);
        push_u16_le(&mut bin_data, self.lvflag);
        bin_data.push(self.damage);
        bin_data.push(self.flag2);
        let ghost header = spec_u32_le_bytes(self.flags) + spec_u16_le_bytes(self.lvflag) + seq![
            self.damage,
            self.flag2,
        ];
        proof {
            assert(bin_data@ =~= header + spec_instrs_bytes(self.instructions@.subrange(0, 0)));
        }
        let mut i: usize = 0;
        while i < self.instructions.len()
            invariant
                i <= self.instructions@.len(),
                header == spec_u32_le_bytes(self.flags) + spec_u16_le_bytes(self.lvflag) + seq![
                    self.damage,
                    self.flag2,
                ],
                bin_data@ == header + spec_instrs_bytes(self.instructions@.subrange(0, i as int)),
            decreases self.instructions@.len() - i,
        {
            let mut piece = self.instructions[i].to_bin();
            bin_data.append(&mut piece);
            proof {
                lemma_instrs_bytes_snoc(self.instructions@, i as int);
            }
            i += 1;
        }
        proof {
            assert(self.instructions@.subrange(0, self.instructions@.len() as int)
                =~= self.instructions@);
        }
        bin_data
    }

    /// Builds an action from decoded parts.
    pub fn from_data(
        flags: u32,
        lvflag: u16,
        damage: u8,
        flag2: u8,
        instructions: Vec<Instruction>,
    ) -> (r: ScriptAction)
        ensures
            r.flags == flags && r.lvflag == lvflag && r.damage == damage && r.flag2 == flag2
                && r.instructions == instructions,
    {
        ScriptAction { flags, lvflag, damage, flag2, instructions }
    }
}

/// A character's play-data variables: the header word, 39 signed
/// tuning values, and the padding block.
pub struct PlayVariables {
    pub header: u16,
    pub walk_fwd_x_speed: i16,
    pub walk_bwd_x_speed: i16,
    pub dash_x_speed: i16,
    pub backdash_x_speed: i16,
    pub backdash_y_speed: i16,
    pub backdash_gravity: i16,
    pub jump_fwd_x_speed: i16,
    pub jump_bwd_x_speed: i16,
    pub jump_y_speed: i16,
    pub jump_gravity: i16,
    pub sjump_fwd_x_speed: i16,
    pub sjump_bwd_x_speed: i16,
    pub sjump_y_speed: i16,
    pub sjump_gravity: i16,
    pub dash_acceleration: i16,
    pub dash_resist: i16,
    pub homing_jump_y_max: i16,
    pub homing_jump_x_max: i16,
    pub homing_jump_x_resist: i16,
    pub homing_target_y_offset: i16,
    pub airdash_height: i16,
    pub pd_airdash_fwd_time: i16,
    pub pd_airdash_bwd_time: i16,
    pub pd_faint_point: i16,
    pub pd_defense_point: i16,
    pub pd_konjo: i16,
    pub pd_kaishin: i16,
    pub pd_defense_gravity: i16,
    pub pd_airdash_count: i16,
    pub pd_jump_count: i16,
    pub pd_airdash_fwd_atk_time: i16,
    pub pd_airdash_bwd_atk_time: i16,
    pub pd_tension_walk: i16,
    pub pd_tension_jump: i16,
    pub pd_tension_dash: i16,
    pub pd_tension_airdash: i16,
    pub pdgc_gauge_def_point: i16,
    pub pdgc_gauge_recovery: i16,
    pub pd_tension_ib: i16,
    pub padding: Vec<u8>,
}

/// The signed 16-bit value at offset `p`.
pub open spec fn spec_i16_at(d: Seq<u8>, p: int) -> i16 {
    spec_u16_le(d[p], d[p + 1]) as i16
}

/// Whether `v` holds exactly the play variables stored in the first
/// 0x80 bytes of `d`.
pub open spec fn spec_play_variables_matches(v: PlayVariables, d: Seq<u8>) -> bool {
    &&& v.header == spec_u16_le(d[0], d[1])
    &&& v.walk_fwd_x_speed == spec_i16_at(d, 0x02)
    &&& v.walk_bwd_x_speed == spec_i16_at(d, 0x04)
    &&& v.dash_x_speed == spec_i16_at(d, 0x06)
    &&& v.backdash_x_speed == spec_i16_at(d, 0x08)
    &&& v.backdash_y_speed == spec_i16_at(d, 0x0A)
    &&& v.backdash_gravity == spec_i16_at(d, 0x0C)
    &&& v.jump_fwd_x_speed == spec_i16_at(d, 0x0E)
    &&& v.jump_bwd_x_speed == spec_i16_at(d, 0x10)
    &&& v.jump_y_speed == spec_i16_at(d, 0x12)
    &&& v.jump_gravity == spec_i16_at(d, 0x14)
    &&& v.sjump_fwd_x_speed == spec_i16_at(d, 0x16)
    &&& v.sjump_bwd_x_speed == spec_i16_at(d, 0x18)
    &&& v.sjump_y_speed == spec_i16_at(d, 0x1A)
    &&& v.sjump_gravity == spec_i16_at(d, 0x1C)
    &&& v.dash_acceleration == spec_i16_at(d, 0x1E)
    &&& v.dash_resist == spec_i16_at(d, 0x20)
    &&& v.homing_jump_y_max == spec_i16_at(d, 0x22)
    &&& v.homing_jump_x_max == spec_i16_at(d, 0x24)
    &&& v.homing_jump_x_resist == spec_i16_at(d, 0x26)
    &&& v.homing_target_y_offset == spec_i16_at(d, 0x28)
    &&& v.airdash_height == spec_i16_at(d, 0x2A)
    &&& v.pd_airdash_fwd_time == spec_i16_at(d, 0x2C)
    &&& v.pd_airdash_bwd_time == spec_i16_at(d, 0x2E)
    &&& v.pd_faint_point == spec_i16_at(d, 0x30)
    &&& v.pd_defense_point == spec_i16_at(d, 0x32)
    &&& v.pd_konjo == spec_i16_at(d, 0x34)
    &&& v.pd_kaishin == spec_i16_at(d, 0x36)
    &&& v.pd_defense_gravity == spec_i16_at(d, 0x38)
    &&& v.pd_airdash_count == spec_i16_at(d, 0x3A)
    &&& v.pd_jump_count == spec_i16_at(d, 0x3C)
    &&& v.pd_airdash_fwd_atk_time == spec_i16_at(d, 0x3E)
    &&& v.pd_airdash_bwd_atk_time == spec_i16_at(d, 0x40)
    &&& v.pd_tension_walk == spec_i16_at(d, 0x42)
    &&& v.pd_tension_jump == spec_i16_at(d, 0x44)
    &&& v.pd_tension_dash == spec_i16_at(d, 0x46)
    &&& v.pd_tension_airdash == spec_i16_at(d, 0x48)
    &&& v.pdgc_gauge_def_point == spec_i16_at(d, 0x4A)
    &&& v.pdgc_gauge_recovery == spec_i16_at(d, 0x4C)
    &&& v.pd_tension_ib == spec_i16_at(d, 0x4E)
    &&& v.padding@ == d.subrange(0x50, 0x80)
}

impl PlayVariables {
    /// Parses the play variables from the first 0x80 bytes.
    pub fn from_bin(bin_data: &Vec<u8>) -> (r: PlayVariables)
        requires
            bin_data@.len() >= 0x80,
        ensures
            spec_play_variables_matches(r, bin_data@),
    {
        let mut padding: Vec<u8> = Vec::new();
        let mut i: usize = 0x50;
        while i < 0x80
            invariant
                0x50 <= i <= 0x80,
                bin_data@.len() >= 0x80,
                padding@.len() == i - 0x50,
                forall|j: int| 0 <= j < padding@.len() ==> padding@[j] == bin_data@[0x50 + j],
            decreases 0x80 - i,
        {
            padding.push(bin_data[i]);
            i += 1;
        }
        proof {
            assert(padding@ =~= bin_data@.subrange(0x50, 0x80));
        }
        PlayVariables {
            header: u16_from_le(bin_data[0], bin_data[1]),
            walk_fwd_x_speed: u16_from_le(bin_data[0x02], bin_data[0x03]) as i16,
            walk_bwd_x_speed: u16_from_le(bin_data[0x04], bin_data[0x05]) as i16,
            dash_x_speed: u16_from_le(bin_data[0x06], bin_data[0x07]) as i16,
            backdash_x_speed: u16_from_le(bin_data[0x08], bin_data[0x09]) as i16,
            backdash_y_speed: u16_from_le(bin_data[0x0A], bin_data[0x0B]) as i16,
            backdash_gravity: u16_from_le(bin_data[0x0C], bin_data[0x0D]) as i16,
            jump_fwd_x_speed: u16_from_le(bin_data[0x0E], bin_data[0x0F]) as i16,
            jump_bwd_x_speed: u16_from_le(bin_data[0x10], bin_data[0x11]) as i16,
            jump_y_speed: u16_from_le(bin_data[0x12], bin_data[0x13]) as i16,
            jump_gravity: u16_from_le(bin_data[0x14], bin_data[0x15]) as i16,
            sjump_fwd_x_speed: u16_from_le(bin_data[0x16], bin_data[0x17]) as i16,
            sjump_bwd_x_speed: u16_from_le(bin_data[0x18], bin_data[0x19]) as i16,
            sjump_y_speed: u16_from_le(bin_data[0x1A], bin_data[0x1B]) as i16,
            sjump_gravity: u16_from_le(bin_data[0x1C], bin_data[0x1D]) as i16,
            dash_acceleration: u16_from_le(bin_data[0x1E], bin_data[0x1F]) as i16,
            dash_resist: u16_from_le(bin_data[0x20], bin_data[0x21]) as i16,
            homing_jump_y_max: u16_from_le(bin_data[0x22], bin_data[0x23]) as i16,
            homing_jump_x_max: u16_from_le(bin_data[0x24], bin_data[0x25]) as i16,
            homing_jump_x_resist: u16_from_le(bin_data[0x26], bin_data[0x27]) as i16,
            homing_target_y_offset: u16_from_le(bin_data[0x28], bin_data[0x29]) as i16,
            airdash_height: u16_from_le(bin_data[0x2A], bin_data[0x2B]) as i16,
            pd_airdash_fwd_time: u16_from_le(bin_data[0x2C], bin_data[0x2D]) as i16,
            pd_airdash_bwd_time: u16_from_le(bin_data[0x2E], bin_data[0x2F]) as i16,
            pd_faint_point: u16_from_le(bin_data[0x30], bin_data[0x31]) as i16,
            pd_defense_point: u16_from_le(bin_data[0x32], bin_data[0x33]) as i16,
            pd_konjo: u16_from_le(bin_data[0x34], bin_data[0x35]) as i16,
            pd_kaishin: u16_from_le(bin_data[0x36], bin_data[0x37]) as i16,
            pd_defense_gravity: u16_from_le(bin_data[0x38], bin_data[0x39]) as i16,
            pd_airdash_count: u16_from_le(bin_data[0x3A], bin_data[0x3B]) as i16,
            pd_jump_count: u16_from_le(bin_data[0x3C], bin_data[0x3D]) as i16,
            pd_airdash_fwd_atk_time: u16_from_le(bin_data[0x3E], bin_data[0x3F]) as i16,
            pd_airdash_bwd_atk_time: u16_from_le(bin_data[0x40], bin_data[0x41]) as i16,
            pd_tension_walk: u16_from_le(bin_data[0x42], bin_data[0x43]) as i16,
            pd_tension_jump: u16_from_le(bin_data[0x44], bin_data[0x45]) as i16,
            pd_tension_dash: u16_from_le(bin_data[0x46], bin_data[0x47]) as i16,
            pd_tension_airdash: u16_from_le(bin_data[0x48], bin_data[0x49]) as i16,
            pdgc_gauge_def_point: u16_from_le(bin_data[0x4A], bin_data[0x4B]) as i16,
            pdgc_gauge_recovery: u16_from_le(bin_data[0x4C], bin_data[0x4D]) as i16,
            pd_tension_ib: u16_from_le(bin_data[0x4E], bin_data[0x4F]) as i16,
            padding,
        }
    }

    /// Serializes the play variables: the header and every value as
    /// little-endian words, then the padding block.
    #[verifier::rlimit(100)]
    pub fn to_bin(&self) -> (r: Vec<u8>)
        requires
            self.padding@.len() == 0x30,
        ensures
            r@.len() == 0x80,
            spec_play_variables_matches(*self, r@),
            spec_u16_le(r@[0], r@[1]) == self.header,
            spec_i16_at(r@, 0x02) == self.walk_fwd_x_speed,
            spec_i16_at(r@, 0x04) == self.walk_bwd_x_speed,
            spec_i16_at(r@, 0x06) == self.dash_x_speed,
            spec_i16_at(r@, 0x08) == self.backdash_x_speed,
            spec_i16_at(r@, 0x0A) == self.backdash_y_speed,
            spec_i16_at(r@, 0x0C) == self.backdash_gravity,
            spec_i16_at(r@, 0x0E) == self.jump_fwd_x_speed,
            spec_i16_at(r@, 0x10) == self.jump_bwd_x_speed,
            spec_i16_at(r@, 0x12) == self.jump_y_speed,
            spec_i16_at(r@, 0x14) == self.jump_gravity,
            spec_i16_at(r@, 0x16) == self.sjump_fwd_x_speed,
            spec_i16_at(r@, 0x18) == self.sjump_bwd_x_speed,
            spec_i16_at(r@, 0x1A) == self.sjump_y_speed,
            spec_i16_at(r@, 0x1C) == self.sjump_gravity,
            spec_i16_at(r@, 0x1E) == self.dash_acceleration,
            spec_i16_at(r@, 0x20) == self.dash_resist,
            spec_i16_at(r@, 0x22) == self.homing_jump_y_max,
            spec_i16_at(r@, 0x24) == self.homing_jump_x_max,
            spec_i16_at(r@, 0x26) == self.homing_jump_x_resist,
            spec_i16_at(r@, 0x28) == self.homing_target_y_offset,
            spec_i16_at(r@, 0x2A) == self.airdash_height,
            spec_i16_at(r@, 0x2C) == self.pd_airdash_fwd_time,
            spec_i16_at(r@, 0x2E) == self.pd_airdash_bwd_time,
            spec_i16_at(r@, 0x30) == self.pd_faint_point,
            spec_i16_at(r@, 0x32) == self.pd_defense_point,
            spec_i16_at(r@, 0x34) == self.pd_konjo,
            spec_i16_at(r@, 0x36) == self.pd_kaishin,
            spec_i16_at(r@, 0x38) == self.pd_defense_gravity,
            spec_i16_at(r@, 0x3A) == self.pd_airdash_count,
            spec_i16_at(r@, 0x3C) == self.pd_jump_count,
            spec_i16_at(r@, 0x3E) == self.pd_airdash_fwd_atk_time,
            spec_i16_at(r@, 0x40) == self.pd_airdash_bwd_atk_time,
            spec_i16_at(r@, 0x42) == self.pd_tension_walk,
            spec_i16_at(r@, 0x44) == self.pd_tension_jump,
            spec_i16_at(r@, 0x46) == self.pd_tension_dash,
            spec_i16_at(r@, 0x48) == self.pd_tension_airdash,
            spec_i16_at(r@, 0x4A) == self.pdgc_gauge_def_point,
            spec_i16_at(r@, 0x4C) == self.pdgc_gauge_recovery,
            spec_i16_at(r@, 0x4E) == self.pd_tension_ib,
            r@.subrange(0x50, r@.len() as int) == self.padding@,
    {
        let mut bin_data: Vec<u8> = Vec::new();
        push_u16_le(&mut bin_data, self.header);
        push_u16_le(&mut bin_data, self.walk_fwd_x_speed as u16);
        push_u16_le(&mut bin_data, self.walk_bwd_x_speed as u16);
        push_u16_le(&mut bin_data, self.dash_x_speed as u16);
        push_u16_le(&mut bin_data, self.backdash_x_speed as u16);
        push_u16_le(&mut bin_data, self.backdash_y_speed as u16);
        push_u16_le(&mut bin_data, self.backdash_gravity as u16);
        push_u16_le(&mut bin_data, self.jump_fwd_x_speed as u16);
        push_u16_le(&mut bin_data, self.jump_bwd_x_speed as u16);
        push_u16_le(&mut bin_data, self.jump_y_speed as u16);
        push_u16_le(&mut bin_data, self.jump_gravity as u16);
        push_u16_le(&mut bin_data, self.sjump_fwd_x_speed as u16);
        push_u16_le(&mut bin_data, self.sjump_bwd_x_speed as u16);
        push_u16_le(&mut bin_data, self.sjump_y_speed as u16);
        push_u16_le(&mut bin_data, self.sjump_gravity as u16);
        push_u16_le(&mut bin_data, self.dash_acceleration as u16);
        push_u16_le(&mut bin_data, self.dash_resist as u16);
        push_u16_le(&mut bin_data, self.homing_jump_y_max as u16);
        push_u16_le(&mut bin_data, self.homing_jump_x_max as u16);
        push_u16_le(&mut bin_data, self.homing_jump_x_resist as u16);
        push_u16_le(&mut bin_data, self.homing_target_y_offset as u16);
        push_u16_le(&mut bin_data, self.airdash_height as u16);
        push_u16_le(&mut bin_data, self.pd_airdash_fwd_time as u16);
        push_u16_le(&mut bin_data, self.pd_airdash_bwd_time as u16);
        push_u16_le(&mut bin_data, self.pd_faint_point as u16);
        push_u16_le(&mut bin_data, self.pd_defense_point as u16);
        push_u16_le(&mut bin_data, self.pd_konjo as u16);
        push_u16_le(&mut bin_data, self.pd_kaishin as u16);
        push_u16_le(&mut bin_data, self.pd_defense_gravity as u16);
        push_u16_le(&mut bin_data, self.pd_airdash_count as u16);
        push_u16_le(&mut bin_data, self.pd_jump_count as u16);
        push_u16_le(&mut bin_data, self.pd_airdash_fwd_atk_time as u16);
        push_u16_le(&mut bin_data, self.pd_airdash_bwd_atk_time as u16);
        push_u16_le(&mut bin_data, self.pd_tension_walk as u16);
        push_u16_le(&mut bin_data, self.pd_tension_jump as u16);
        push_u16_le(&mut bin_data, self.pd_tension_dash as u16);
        push_u16_le(&mut bin_data, self.pd_tension_airdash as u16);
        push_u16_le(&mut bin_data, self.pdgc_gauge_def_point as u16);
        push_u16_le(&mut bin_data, self.pdgc_gauge_recovery as u16);
        push_u16_le(&mut bin_data, self.pd_tension_ib as u16);
        proof {
            assert forall|x: i16| #[trigger] ((x as u16) as i16) == x by {
                lemma_i16_u16_roundtrip(x);
            }
        }
        let mut i: usize = 0;
        while i < self.padding.len()
            invariant
                i <= self.padding@.len(),
                bin_data@.len() == 0x50 + i,
                bin_data@.subrange(0, 0x50) == bin_data@.subrange(0, 0x50),
                forall|j: int| 0 <= j < 0x50 ==> bin_data@[j] == old_prefix(bin_data@, j),
                forall|j: int| 0 <= j < i ==> bin_data@[0x50 + j] == self.padding@[j],
                spec_u16_le(bin_data@[0], bin_data@[1]) == self.header,
                spec_i16_at(bin_data@, 0x02) == self.walk_fwd_x_speed,
                spec_i16_at(bin_data@, 0x04) == self.walk_bwd_x_speed,
                spec_i16_at(bin_data@, 0x06) == self.dash_x_speed,
                spec_i16_at(bin_data@, 0x08) == self.backdash_x_speed,
                spec_i16_at(bin_data@, 0x0A) == self.backdash_y_speed,
                spec_i16_at(bin_data@, 0x0C) == self.backdash_gravity,
                spec_i16_at(bin_data@, 0x0E) == self.jump_fwd_x_speed,
                spec_i16_at(bin_data@, 0x10) == self.jump_bwd_x_speed,
                spec_i16_at(bin_data@, 0x12) == self.jump_y_speed,
                spec_i16_at(bin_data@, 0x14) == self.jump_gravity,
                spec_i16_at(bin_data@, 0x16) == self.sjump_fwd_x_speed,
                spec_i16_at(bin_data@, 0x18) == self.sjump_bwd_x_speed,
                spec_i16_at(bin_data@, 0x1A) == self.sjump_y_speed,
                spec_i16_at(bin_data@, 0x1C) == self.sjump_gravity,
                spec_i16_at(bin_data@, 0x1E) == self.dash_acceleration,
                spec_i16_at(bin_data@, 0x20) == self.dash_resist,
                spec_i16_at(bin_data@, 0x22) == self.homing_jump_y_max,
                spec_i16_at(bin_data@, 0x24) == self.homing_jump_x_max,
                spec_i16_at(bin_data@, 0x26) == self.homing_jump_x_resist,
                spec_i16_at(bin_data@, 0x28) == self.homing_target_y_offset,
                spec_i16_at(bin_data@, 0x2A) == self.airdash_height,
                spec_i16_at(bin_data@, 0x2C) == self.pd_airdash_fwd_time,
                spec_i16_at(bin_data@, 0x2E) == self.pd_airdash_bwd_time,
                spec_i16_at(bin_data@, 0x30) == self.pd_faint_point,
                spec_i16_at(bin_data@, 0x32) == self.pd_defense_point,
                spec_i16_at(bin_data@, 0x34) == self.pd_konjo,
                spec_i16_at(bin_data@, 0x36) == self.pd_kaishin,
                spec_i16_at(bin_data@, 0x38) == self.pd_defense_gravity,
                spec_i16_at(bin_data@, 0x3A) == self.pd_airdash_count,
                spec_i16_at(bin_data@, 0x3C) == self.pd_jump_count,
                spec_i16_at(bin_data@, 0x3E) == self.pd_airdash_fwd_atk_time,
                spec_i16_at(bin_data@, 0x40) == self.pd_airdash_bwd_atk_time,
                spec_i16_at(bin_data@, 0x42) == self.pd_tension_walk,
                spec_i16_at(bin_data@, 0x44) == self.pd_tension_jump,
                spec_i16_at(bin_data@, 0x46) == self.pd_tension_dash,
                spec_i16_at(bin_data@, 0x48) == self.pd_tension_airdash,
                spec_i16_at(bin_data@, 0x4A) == self.pdgc_gauge_def_point,
                spec_i16_at(bin_data@, 0x4C) == self.pdgc_gauge_recovery,
                spec_i16_at(bin_data@, 0x4E) == self.pd_tension_ib,
            decreases self.padding@.len() - i,
        {
            bin_data.push(self.padding[i]);
            i += 1;
        }
        proof {
            assert(bin_data@.subrange(0x50, bin_data@.len() as int) =~= self.padding@);
        }
        bin_data
    }
}

/// Identity helper used to freeze prefix bytes across a loop.
pub open spec fn old_prefix(s: Seq<u8>, j: int) -> u8 {
    s[j]
}

/// A signed 16-bit value survives the round trip through its unsigned
/// bit pattern.
pub proof fn lemma_i16_u16_roundtrip(x: i16)
    ensures
        ((x as u16) as i16) == x,
{
    assert((x as u16) as i16 == x) by (bit_vector);
}

/// A character's cancel-chain table: 32 stored words.
pub struct ChainTable {
    pub chain_5p: u32,
    pub chain_6p: u32,
    pub chain_5k: u32,
    pub chain_fs: u32,
    pub chain_cs: u32,
    pub chain_5h: u32,
    pub chain_6h: u32,
    pub chain_2p: u32,
    pub chain_2k: u32,
    pub chain_2d: u32,
    pub chain_2s: u32,
    pub chain_2h: u32,
    pub chain_jp: u32,
    pub chain_jk: u32,
    pub chain_js: u32,
    pub chain_jh: u32,
    pub chain_unk16: u32,
    pub chain_j2k: u32,
    pub chain_3p: u32,
    pub chain_unk19: u32,
    pub chain_unk20: u32,
    pub chain_6k: u32,
    pub chain_j2s: u32,
    pub chain_3s: u32,
    pub chain_3k: u32,
    pub chain_3h: u32,
    pub chain_j2h: u32,
    pub chain_unk27: u32,
    pub chain_unk28: u32,
    pub chain_unk29: u32,
    pub chain_unk30: u32,
    pub chain_unk31: u32,
}

/// Word `k` of a chain table, in stored order.
pub open spec fn spec_chain_word(t: ChainTable, k: int) -> u32 {
    if k == 0 {
        t.chain_5p
    } else
    if k == 1 {
        t.chain_6p
    } else
    if k == 2 {
        t.chain_5k
    } else
    if k == 3 {
        t.chain_fs
    } else
    if k == 4 {
        t.chain_cs
    } else
    if k == 5 {
        t.chain_5h
    } else
    if k == 6 {
        t.chain_6h
    } else
    if k == 7 {
        t.chain_2p
    } else
    if k == 8 {
        t.chain_2k
    } else
    if k == 9 {
        t.chain_2d
    } else
    if k == 10 {
        t.chain_2s
    } else
    if k == 11 {
        t.chain_2h
    } else
    if k == 12 {
        t.chain_jp
    } else
    if k == 13 {
        t.chain_jk
    } else
    if k == 14 {
        t.chain_js
    } else
    if k == 15 {
        t.chain_jh
    } else
    if k == 16 {
        t.chain_unk16
    } else
    if k == 17 {
        t.chain_j2k
    } else
    if k == 18 {
        t.chain_3p
    } else
    if k == 19 {
        t.chain_unk19
    } else
    if k == 20 {
        t.chain_unk20
    } else
    if k == 21 {
        t.chain_6k
    } else
    if k == 22 {
        t.chain_j2s
    } else
    if k == 23 {
        t.chain_3s
    } else
    if k == 24 {
        t.chain_3k
    } else
    if k == 25 {
        t.chain_3h
    } else
    if k == 26 {
        t.chain_j2h
    } else
    if k == 27 {
        t.chain_unk27
    } else
    if k == 28 {
        t.chain_unk28
    } else
    if k == 29 {
        t.chain_unk29
    } else
    if k == 30 {
        t.chain_unk30
    } else {
        t.chain_unk31
    }
}

/// Whether `t` holds exactly the chain table stored at `base`.
pub open spec fn spec_chain_matches(t: ChainTable, d: Seq<u8>, base: int) -> bool {
    &&& t.chain_5p == spec_u32_le(d[base + 0], d[base + 1], d[base + 2], d[base + 3])
    &&& t.chain_6p == spec_u32_le(d[base + 4], d[base + 5], d[base + 6], d[base + 7])
    &&& t.chain_5k == spec_u32_le(d[base + 8], d[base + 9], d[base + 10], d[base + 11])
    &&& t.chain_fs == spec_u32_le(d[base + 12], d[base + 13], d[base + 14], d[base + 15])
    &&& t.chain_cs == spec_u32_le(d[base + 16], d[base + 17], d[base + 18], d[base + 19])
    &&& t.chain_5h == spec_u32_le(d[base + 20], d[base + 21], d[base + 22], d[base + 23])
    &&& t.chain_6h == spec_u32_le(d[base + 24], d[base + 25], d[base + 26], d[base + 27])
    &&& t.chain_2p == spec_u32_le(d[base + 28], d[base + 29], d[base + 30], d[base + 31])
    &&& t.chain_2k == spec_u32_le(d[base + 32], d[base + 33], d[base + 34], d[base + 35])
    &&& t.chain_2d == spec_u32_le(d[base + 36], d[base + 37], d[base + 38], d[base + 39])
    &&& t.chain_2s == spec_u32_le(d[base + 40], d[base + 41], d[base + 42], d[base + 43])
    &&& t.chain_2h == spec_u32_le(d[base + 44], d[base + 45], d[base + 46], d[base + 47])
    &&& t.chain_jp == spec_u32_le(d[base + 48], d[base + 49], d[base + 50], d[base + 51])
    &&& t.chain_jk == spec_u32_le(d[base + 52], d[base + 53], d[base + 54], d[base + 55])
    &&& t.chain_js == spec_u32_le(d[base + 56], d[base + 57], d[base + 58], d[base + 59])
    &&& t.chain_jh == spec_u32_le(d[base + 60], d[base + 61], d[base + 62], d[base + 63])
    &&& t.chain_unk16 == spec_u32_le(d[base + 64], d[base + 65], d[base + 66], d[base + 67])
    &&& t.chain_j2k == spec_u32_le(d[base + 68], d[base + 69], d[base + 70], d[base + 71])
    &&& t.chain_3p == spec_u32_le(d[base + 72], d[base + 73], d[base + 74], d[base + 75])
    &&& t.chain_unk19 == spec_u32_le(d[base + 76], d[base + 77], d[base + 78], d[base + 79])
    &&& t.chain_unk20 == spec_u32_le(d[base + 80], d[base + 81], d[base + 82], d[base + 83])
    &&& t.chain_6k == spec_u32_le(d[base + 84], d[base + 85], d[base + 86], d[base + 87])
    &&& t.chain_j2s == spec_u32_le(d[base + 88], d[base + 89], d[base + 90], d[base + 91])
    &&& t.chain_3s == spec_u32_le(d[base + 92], d[base + 93], d[base + 94], d[base + 95])
    &&& t.chain_3k == spec_u32_le(d[base + 96], d[base + 97], d[base + 98], d[base + 99])
    &&& t.chain_3h == spec_u32_le(d[base + 100], d[base + 101], d[base + 102], d[base + 103])
    &&& t.chain_j2h == spec_u32_le(d[base + 104], d[base + 105], d[base + 106], d[base + 107])
    &&& t.chain_unk27 == spec_u32_le(d[base + 108], d[base + 109], d[base + 110], d[base + 111])
    &&& t.chain_unk28 == spec_u32_le(d[base + 112], d[base + 113], d[base + 114], d[base + 115])
    &&& t.chain_unk29 == spec_u32_le(d[base + 116], d[base + 117], d[base + 118], d[base + 119])
    &&& t.chain_unk30 == spec_u32_le(d[base + 120], d[base + 121], d[base + 122], d[base + 123])
    &&& t.chain_unk31 == spec_u32_le(d[base + 124], d[base + 125], d[base + 126], d[base + 127])
}

/// How many chain tables a play-data block holds: five when the
/// discriminant byte is five, otherwise one.
pub open spec fn spec_play_count(d: Seq<u8>) -> int {
    if d[1] == 5 {
        5
    } else {
        1
    }
}

impl ChainTable {
    /// Parses one 0x80-byte chain table at `base`.
    pub fn from_bin_single(bin_data: &Vec<u8>, base: usize) -> (r: ChainTable)
        requires
            base + 0x80 <= bin_data@.len(),
        ensures
            spec_chain_matches(r, bin_data@, base as int),
    {
        let _total: usize = bin_data.len();
        ChainTable {
            chain_5p: u32_from_le(
                bin_data[base + 0],
                bin_data[base + 1],
                bin_data[base + 2],
                bin_data[base + 3],
            ),
            chain_6p: u32_from_le(
                bin_data[base + 4],
                bin_data[base + 5],
                bin_data[base + 6],
                bin_data[base + 7],
            ),
            chain_5k: u32_from_le(
                bin_data[base + 8],
                bin_data[base + 9],
                bin_data[base + 10],
                bin_data[base + 11],
            ),
            chain_fs: u32_from_le(
                bin_data[base + 12],
                bin_data[base + 13],
                bin_data[base + 14],
                bin_data[base + 15],
            ),
            chain_cs: u32_from_le(
                bin_data[base + 16],
                bin_data[base + 17],
                bin_data[base + 18],
                bin_data[base + 19],
            ),
            chain_5h: u32_from_le(
                bin_data[base + 20],
                bin_data[base + 21],
                bin_data[base + 22],
                bin_data[base + 23],
            ),
            chain_6h: u32_from_le(
                bin_data[base + 24],
                bin_data[base + 25],
                bin_data[base + 26],
                bin_data[base + 27],
            ),
            chain_2p: u32_from_le(
                bin_data[base + 28],
                bin_data[base + 29],
                bin_data[base + 30],
                bin_data[base + 31],
            ),
            chain_2k: u32_from_le(
                bin_data[base + 32],
                bin_data[base + 33],
                bin_data[base + 34],
                bin_data[base + 35],
            ),
            chain_2d: u32_from_le(
                bin_data[base + 36],
                bin_data[base + 37],
                bin_data[base + 38],
                bin_data[base + 39],
            ),
            chain_2s: u32_from_le(
                bin_data[base + 40],
                bin_data[base + 41],
                bin_data[base + 42],
                bin_data[base + 43],
            ),
            chain_2h: u32_from_le(
                bin_data[base + 44],
                bin_data[base + 45],
                bin_data[base + 46],
                bin_data[base + 47],
            ),
            chain_jp: u32_from_le(
                bin_data[base + 48],
                bin_data[base + 49],
                bin_data[base + 50],
                bin_data[base + 51],
            ),
            chain_jk: u32_from_le(
                bin_data[base + 52],
                bin_data[base + 53],
                bin_data[base + 54],
                bin_data[base + 55],
            ),
            chain_js: u32_from_le(
                bin_data[base + 56],
                bin_data[base + 57],
                bin_data[base + 58],
                bin_data[base + 59],
            ),
            chain_jh: u32_from_le(
                bin_data[base + 60],
                bin_data[base + 61],
                bin_data[base + 62],
                bin_data[base + 63],
            ),
            chain_unk16: u32_from_le(
                bin_data[base + 64],
                bin_data[base + 65],
                bin_data[base + 66],
                bin_data[base + 67],
            ),
            chain_j2k: u32_from_le(
                bin_data[base + 68],
                bin_data[base + 69],
                bin_data[base + 70],
                bin_data[base + 71],
            ),
            chain_3p: u32_from_le(
                bin_data[base + 72],
                bin_data[base + 73],
                bin_data[base + 74],
                bin_data[base + 75],
            ),
            chain_unk19: u32_from_le(
                bin_data[base + 76],
                bin_data[base + 77],
                bin_data[base + 78],
                bin_data[base + 79],
            ),
            chain_unk20: u32_from_le(
                bin_data[base + 80],
                bin_data[base + 81],
                bin_data[base + 82],
                bin_data[base + 83],
            ),
            chain_6k: u32_from_le(
                bin_data[base + 84],
                bin_data[base + 85],
                bin_data[base + 86],
                bin_data[base + 87],
            ),
            chain_j2s: u32_from_le(
                bin_data[base + 88],
                bin_data[base + 89],
                bin_data[base + 90],
                bin_data[base + 91],
            ),
            chain_3s: u32_from_le(
                bin_data[base + 92],
                bin_data[base + 93],
                bin_data[base + 94],
                bin_data[base + 95],
            ),
            chain_3k: u32_from_le(
                bin_data[base + 96],
                bin_data[base + 97],
                bin_data[base + 98],
                bin_data[base + 99],
            ),
            chain_3h: u32_from_le(
                bin_data[base + 100],
                bin_data[base + 101],
                bin_data[base + 102],
                bin_data[base + 103],
            ),
            chain_j2h: u32_from_le(
                bin_data[base + 104],
                bin_data[base + 105],
                bin_data[base + 106],
                bin_data[base + 107],
            ),
            chain_unk27: u32_from_le(
                bin_data[base + 108],
                bin_data[base + 109],
                bin_data[base + 110],
                bin_data[base + 111],
            ),
            chain_unk28: u32_from_le(
                bin_data[base + 112],
                bin_data[base + 113],
                bin_data[base + 114],
                bin_data[base + 115],
            ),
            chain_unk29: u32_from_le(
                bin_data[base + 116],
                bin_data[base + 117],
                bin_data[base + 118],
                bin_data[base + 119],
            ),
            chain_unk30: u32_from_le(
                bin_data[base + 120],
                bin_data[base + 121],
                bin_data[base + 122],
                bin_data[base + 123],
            ),
            chain_unk31: u32_from_le(
                bin_data[base + 124],
                bin_data[base + 125],
                bin_data[base + 126],
                bin_data[base + 127],
            ),
        }
    }

    /// Parses the chain tables following the play variables: five when
    /// the discriminant byte is five, otherwise one, each 0x80 bytes,
    /// starting at offset 0x80.
    pub fn from_bin(bin_data: &Vec<u8>) -> (r: Vec<ChainTable>)
        requires
            bin_data@.len() >= 2,
            bin_data@.len() >= 0x80 * (spec_play_count(bin_data@) + 1),
        ensures
            r@.len() == spec_play_count(bin_data@),
            forall|t: int| 0 <= t < r@.len() ==> spec_chain_matches(
                #[trigger] r@[t],
                bin_data@,
                0x80 * (t + 1),
            ),
    {
        let chain_table_count: usize = if bin_data[0x01] == 0x05 {
            5
        } else {
            1
        };
        let mut chain_tables: Vec<ChainTable> = Vec::new();
        let mut t: usize = 0;
        while t < chain_table_count
            invariant
                t <= chain_table_count,
                chain_table_count == spec_play_count(bin_data@),
                bin_data@.len() >= 0x80 * (chain_table_count + 1),
                chain_tables@.len() == t,
                forall|k: int| 0 <= k < t ==> spec_chain_matches(
                    #[trigger] chain_tables@[k],
                    bin_data@,
                    0x80 * (k + 1),
                ),
            decreases chain_table_count - t,
        {
            chain_tables.push(Self::from_bin_single(bin_data, 0x80 * (t + 1)));
            t += 1;
        }
        chain_tables
    }

    /// Serializes the 32 chain words.
    #[verifier::rlimit(100)]
    pub fn to_bin(&self) -> (r: Vec<u8>)
        ensures
            r@.len() == 0x80,
            spec_chain_matches(*self, r@, 0),
    {
        let mut bin_data: Vec<u8> = Vec::new();
        push_u32_le(&mut bin_data, self.chain_5p);
        push_u32_le(&mut bin_data, self.chain_6p);
        push_u32_le(&mut bin_data, self.chain_5k);
        push_u32_le(&mut bin_data, self.chain_fs);
        push_u32_le(&mut bin_data, self.chain_cs);
        push_u32_le(&mut bin_data, self.chain_5h);
        push_u32_le(&mut bin_data, self.chain_6h);
        push_u32_le(&mut bin_data, self.chain_2p);
        push_u32_le(&mut bin_data, self.chain_2k);
        push_u32_le(&mut bin_data, self.chain_2d);
        push_u32_le(&mut bin_data, self.chain_2s);
        push_u32_le(&mut bin_data, self.chain_2h);
        push_u32_le(&mut bin_data, self.chain_jp);
        push_u32_le(&mut bin_data, self.chain_jk);
        push_u32_le(&mut bin_data, self.chain_js);
        push_u32_le(&mut bin_data, self.chain_jh);
        push_u32_le(&mut bin_data, self.chain_unk16);
        push_u32_le(&mut bin_data, self.chain_j2k);
        push_u32_le(&mut bin_data, self.chain_3p);
        push_u32_le(&mut bin_data, self.chain_unk19);
        push_u32_le(&mut bin_data, self.chain_unk20);
        push_u32_le(&mut bin_data, self.chain_6k);
        push_u32_le(&mut bin_data, self.chain_j2s);
        push_u32_le(&mut bin_data, self.chain_3s);
        push_u32_le(&mut bin_data, self.chain_3k);
        push_u32_le(&mut bin_data, self.chain_3h);
        push_u32_le(&mut bin_data, self.chain_j2h);
        push_u32_le(&mut bin_data, self.chain_unk27);
        push_u32_le(&mut bin_data, self.chain_unk28);
        push_u32_le(&mut bin_data, self.chain_unk29);
        push_u32_le(&mut bin_data, self.chain_unk30);
        push_u32_le(&mut bin_data, self.chain_unk31);
        proof {
            assert forall|x: u32| #[trigger] crate::bytes::spec_u32_le(
                crate::bytes::spec_u32_le_bytes(x)[0],
                crate::bytes::spec_u32_le_bytes(x)[1],
                crate::bytes::spec_u32_le_bytes(x)[2],
                crate::bytes::spec_u32_le_bytes(x)[3],
            ) == x by {
                crate::bytes::lemma_u32_le_roundtrip(x);
            }
        }
        bin_data
    }
}

/// Play variables read from a buffer still read the same from any
/// extension of that buffer.
proof fn lemma_play_vars_matches_prefix(v: PlayVariables, d1: Seq<u8>, d2: Seq<u8>)
    requires
        d1.len() >= 0x80,
        d2.len() >= d1.len(),
        forall|q: int| 0 <= q < d1.len() ==> d2[q] == d1[q],
        spec_play_variables_matches(v, d1),
    ensures
        spec_play_variables_matches(v, d2),
{
    assert(d2.subrange(0x50, 0x80) =~= d1.subrange(0x50, 0x80));
}

/// A chain table read from a buffer still reads the same from any
/// extension of that buffer.
proof fn lemma_chain_matches_prefix(t: ChainTable, d1: Seq<u8>, d2: Seq<u8>, base: int)
    requires
        0 <= base,
        base + 0x80 <= d1.len(),
        d2.len() >= d1.len(),
        forall|q: int| 0 <= q < d1.len() ==> d2[q] == d1[q],
        spec_chain_matches(t, d1, base),
    ensures
        spec_chain_matches(t, d2, base),
{
}

/// A character's play data: the variables block and its chain tables.
pub struct PlayData {
    pub variables: PlayVariables,
    pub chain_tables: Vec<ChainTable>,
}

/// Whether `p` holds exactly the play-data block at the start of `d`.
pub open spec fn spec_play_data_matches(p: PlayData, d: Seq<u8>) -> bool {
    &&& spec_play_variables_matches(p.variables, d)
    &&& p.chain_tables@.len() == spec_play_count(d)
    &&& forall|t: int| 0 <= t < p.chain_tables@.len() ==> spec_chain_matches(
        #[trigger] p.chain_tables@[t],
        d,
        0x80 * (t + 1),
    )
}

impl PlayData {
    /// Parses the play-data block at the start of the buffer.
    pub fn from_bin(bin_data: &Vec<u8>) -> (r: PlayData)
        requires
            bin_data@.len() >= 2,
            bin_data@.len() >= 0x80 * (spec_play_count(bin_data@) + 1),
        ensures
            spec_play_data_matches(r, bin_data@),
    {
        PlayData {
            variables: PlayVariables::from_bin(bin_data),
            chain_tables: ChainTable::from_bin(bin_data),
        }
    }

    /// Serializes the variables block then every chain table: the
    /// result reads back as the same play data.
    #[verifier::rlimit(100)]
    pub fn to_bin(&self) -> (r: Vec<u8>)
        requires
            self.variables.padding@.len() == 0x30,
            self.chain_tables@.len() <= 16,
        ensures
            r@.len() == 0x80 + 0x80 * self.chain_tables@.len(),
            spec_play_variables_matches(self.variables, r@),
            forall|t: int| 0 <= t < self.chain_tables@.len() ==> spec_chain_matches(
                #[trigger] self.chain_tables@[t],
                r@,
                0x80 * (t + 1),
            ),
    {
        let mut bin_data: Vec<u8> = self.variables.to_bin();
        let ghost vb = bin_data@;
        let mut t: usize = 0;
        while t < self.chain_tables.len()
            invariant
                t <= self.chain_tables@.len(),
                self.chain_tables@.len() <= 16,
                vb.len() == 0x80,
                spec_play_variables_matches(self.variables, vb),
                bin_data@.len() == 0x80 + 0x80 * t,
                bin_data@.subrange(0, 0x80) == vb,
                forall|k: int| 0 <= k < t ==> spec_chain_matches(
                    #[trigger] self.chain_tables@[k],
                    bin_data@,
                    0x80 * (k + 1),
                ),
            decreases self.chain_tables@.len() - t,
        {
            let ghost before = bin_data@;
            let mut piece = self.chain_tables[t].to_bin();
            let ghost pv = piece@;
            bin_data.append(&mut piece);
            proof {
                assert(bin_data@.subrange(0, 0x80) =~= vb);
                assert(spec_chain_matches(self.chain_tables@[t as int], pv, 0));
                assert forall|q: int| 0 <= q < 0x80 implies bin_data@[0x80 * (t + 1) + q]
                    == pv[q] by {
                    assert(bin_data@[before.len() + q] == pv[q]);
                }
                assert forall|q: int| 0 <= q < before.len() implies bin_data@[q] == before[q] by {}
                assert forall|k: int| 0 <= k < t + 1 implies spec_chain_matches(
                    #[trigger] self.chain_tables@[k],
                    bin_data@,
                    0x80 * (k + 1),
                ) by {
                    if k < t {
                        lemma_chain_matches_prefix(
                            self.chain_tables@[k],
                            before,
                            bin_data@,
                            0x80 * (k + 1),
                        );
                    }
                }
            }
            t += 1;
        }
        proof {
            assert forall|q: int| 0 <= q < 0x80 implies bin_data@[q] == vb[q] by {
                assert(bin_data@.subrange(0, 0x80)[q] == bin_data@[q]);
            }
            lemma_play_vars_matches_prefix(self.variables, vb, bin_data@);
        }
        bin_data
    }
}

/// A scriptable object's script: optional play data and the action
/// list.
pub struct BinScript {
    pub has_play_data: bool,
    pub play_data: Vec<PlayData>,
    pub actions: Vec<ScriptAction>,
}

/// The argument layouts of the instruction table, one per opcode.
pub open spec fn spec_db_view(db: Seq<InstructionDef>) -> Seq<Seq<ArgSpec>> {
    db.map_values(|e: InstructionDef| e.args@)
}

/// The prelude size the discriminant byte selects: 0x300 for the
/// five-chain-table variant, 0x100 plus 0x80 per flag bit at offset
/// 0x50 for mid-range discriminants, 0x80 otherwise.
pub open spec fn spec_prelude_base(d: Seq<u8>) -> int {
    if d[1] < 0x81 && d[1] > 0x02 {
        if d[1] == 5 {
            0x300
        } else {
            let c0: int = if d[0x50] & 1 > 0 {
                0x180
            } else {
                0x100
            };
            let c1: int = if d[0x50] & 2 > 0 {
                c0 + 0x80
            } else {
                c0
            };
            let c2: int = if d[0x50] & 4 > 0 {
                c1 + 0x80
            } else {
                c1
            };
            if d[0x50] & 8 > 0 {
                c2 + 0x80
            } else {
                c2
            }
        }
    } else {
        0x80
    }
}

/// Whether the byte at the prelude boundary is `0xE5`: the workaround
/// for one character's data, which doubles the prelude and parses a
/// second play-data block from the doubled region.
pub open spec fn spec_isuka(d: Seq<u8>) -> bool {
    let b = spec_prelude_base(d);
    0 <= b < d.len() && d[b] == 0xE5
}

/// Where the action stream starts.
pub open spec fn spec_script_cursor(d: Seq<u8>, play_data: bool) -> int {
    if !play_data {
        0
    } else {
        let b = spec_prelude_base(d);
        if spec_isuka(d) {
            2 * b
        } else {
            b
        }
    }
}

/// Whether the buffer can hold the play data and prelude the header
/// promises.
pub open spec fn spec_script_header_ok(d: Seq<u8>, play_data: bool) -> bool {
    !play_data || {
        &&& d.len() >= 2
        &&& d.len() >= 0x80 * (spec_play_count(d) + 1)
        &&& spec_prelude_base(d) < d.len()
        &&& (spec_isuka(d) ==> {
            let b = spec_prelude_base(d);
            &&& 2 * b <= d.len()
            &&& ({
                let sub = d.subrange(b, 2 * b);
                sub.len() >= 2 && sub.len() >= 0x80 * (spec_play_count(sub) + 1)
            })
        })
    }
}

/// Parses an argument list against its table entry.
fn parse_args(bin_data: &Vec<u8>, cursor: usize, specs: &Vec<ArgSpec>) -> (r: Option<
    (Vec<InstructionArgument>, usize),
>)
    requires
        cursor <= bin_data@.len(),
        bin_data@.len() <= usize::MAX - 64,
    ensures
        match r {
            Some(p) => spec_parse_args(bin_data@, cursor as int, specs@) == Some(p.0@) && p.1
                == cursor + spec_args_size(specs@) && cursor <= p.1 <= bin_data@.len(),
            None => spec_parse_args(bin_data@, cursor as int, specs@) is None,
        },
{
    let mut args: Vec<InstructionArgument> = Vec::new();
    let mut cur: usize = cursor;
    let n: usize = specs.len();
    let mut i: usize = 0;
    proof {
        assert(specs@.subrange(0, 0) =~= Seq::<ArgSpec>::empty());
        assert(specs@.subrange(0, n as int) =~= specs@);
        if spec_parse_args(bin_data@, cursor as int, specs@) is Some {
            assert(Seq::<InstructionArgument>::empty() + spec_parse_args(
                bin_data@,
                cursor as int,
                specs@,
            )->Some_0 =~= spec_parse_args(bin_data@, cursor as int, specs@)->Some_0);
        }
    }
    while i < n
        invariant
            i <= n,
            n == specs@.len(),
            cursor <= cur <= bin_data@.len(),
            bin_data@.len() <= usize::MAX - 64,
            cur == cursor + spec_args_size(specs@.subrange(0, i as int)),
            spec_parse_args(bin_data@, cursor as int, specs@) == (match spec_parse_args(
                bin_data@,
                cur as int,
                specs@.subrange(i as int, n as int),
            ) {
                None => None::<Seq<InstructionArgument>>,
                Some(rest) => Some(args@ + rest),
            }),
        decreases n - i,
    {
        let sp = specs[i];
        let w: usize = if sp.size == 1 {
            1
        } else if sp.size == 2 {
            2
        } else {
            4
        };
        if cur + w > bin_data.len() {
            proof {
                assert(specs@.subrange(i as int, n as int)[0] == sp);
                assert(spec_parse_args(bin_data@, cur as int, specs@.subrange(i as int, n as int))
                    is None);
            }
            return None;
        }
        let value: i64 = if sp.signed {
            if sp.size == 1 {
                (bin_data[cur] as i8) as i64
            } else if sp.size == 2 {
                (u16_from_le(bin_data[cur], bin_data[cur + 1]) as i16) as i64
            } else {
                (u32_from_le(
                    bin_data[cur],
                    bin_data[cur + 1],
                    bin_data[cur + 2],
                    bin_data[cur + 3],
                ) as i32) as i64
            }
        } else {
            if sp.size == 1 {
                bin_data[cur] as i64
            } else if sp.size == 2 {
                u16_from_le(bin_data[cur], bin_data[cur + 1]) as i64
            } else {
                u32_from_le(
                    bin_data[cur],
                    bin_data[cur + 1],
                    bin_data[cur + 2],
                    bin_data[cur + 3],
                ) as i64
            }
        };
        let arg = InstructionArgument { size: sp.size, value, signed: sp.signed };
        let ghost prev_args = args@;
        args.push(arg);
        proof {
            let tail = specs@.subrange(i as int, n as int);
            assert(tail[0] == sp);
            assert(arg.value == spec_arg_value(bin_data@, cur as int, sp.size, sp.signed));
            assert(tail.subrange(1, tail.len() as int) =~= specs@.subrange(i + 1, n as int));
            assert(specs@.subrange(0, i + 1).subrange(0, i as int) =~= specs@.subrange(
                0,
                i as int,
            ));
            lemma_args_size_snoc(specs@, i as int);
            assert forall|rest: Seq<InstructionArgument>| true implies prev_args + (seq![arg]
                + rest) =~= args@ + rest by {}
        }
        cur = cur + w;
        i += 1;
    }
    proof {
        assert(specs@.subrange(0, n as int) =~= specs@);
        assert(specs@.subrange(n as int, n as int) =~= Seq::<ArgSpec>::empty());
        assert(spec_parse_args(bin_data@, cur as int, Seq::<ArgSpec>::empty()) == Some(
            Seq::<InstructionArgument>::empty(),
        ));
        assert(args@ + Seq::<InstructionArgument>::empty() =~= args@);
    }
    Some((args, cur))
}

/// Splitting an argument list after one more entry adds that entry's
/// width to the total size.
proof fn lemma_args_size_snoc(specs: Seq<ArgSpec>, i: int)
    requires
        0 <= i < specs.len(),
    ensures
        spec_args_size(specs.subrange(0, i + 1)) == spec_args_size(specs.subrange(0, i))
            + spec_arg_width(specs[i].size),
    decreases i,
{
    if i == 0 {
        let s1 = specs.subrange(0, 1);
        assert(s1[0] == specs[0]);
        assert(s1.subrange(1, 1) =~= Seq::<ArgSpec>::empty());
        assert(spec_args_size(s1) == spec_arg_width(s1[0].size) + spec_args_size(
            s1.subrange(1, 1),
        ));
        assert(specs.subrange(0, 0) =~= Seq::<ArgSpec>::empty());
    } else {
        let rest = specs.subrange(1, specs.len() as int);
        lemma_args_size_snoc(rest, i - 1);
        assert(specs.subrange(0, i + 1)[0] == specs[0]);
        assert(specs.subrange(0, i + 1).subrange(1, i + 1) =~= rest.subrange(0, i));
        assert(specs.subrange(0, i)[0] == specs[0]);
        assert(specs.subrange(0, i).subrange(1, i) =~= rest.subrange(0, i - 1));
        assert(rest[i - 1] == specs[i]);
    }
}

impl BinScript {
    /// Parses a script: the optional play-data prelude (with the
    /// doubled-prelude workaround when the boundary byte is `0xE5`),
    /// then actions until the `0xFD 0x00` terminator or the end of the
    /// buffer.  Argument layouts come from the 256-entry instruction
    /// table.
    #[verifier::rlimit(100)]
    pub fn from_bin(bin_data: &Vec<u8>, play_data: bool, instruction_db: &Vec<InstructionDef>) -> (r:
        Result<BinScript, CodecError>)
        requires
            instruction_db@.len() == 256,
            bin_data@.len() <= usize::MAX - 64,
        ensures
            match r {
                Ok(s) => {
                    &&& spec_script_header_ok(bin_data@, play_data)
                    &&& s.has_play_data == play_data
                    &&& s.play_data@.len() == (if play_data {
                        if spec_isuka(bin_data@) {
                            2int
                        } else {
                            1int
                        }
                    } else {
                        0int
                    })
                    &&& (play_data ==> spec_play_data_matches(s.play_data@[0], bin_data@))
                    &&& (play_data && spec_isuka(bin_data@) ==> spec_play_data_matches(
                        s.play_data@[1],
                        bin_data@.subrange(
                            spec_prelude_base(bin_data@),
                            2 * spec_prelude_base(bin_data@),
                        ),
                    ))
                    &&& spec_parse_actions(
                        bin_data@,
                        spec_script_cursor(bin_data@, play_data),
                        spec_db_view(instruction_db@),
                    ) == Some(s.actions@.map_values(|a: ScriptAction| spec_action_shadow(a)))
                },
                Err(e) => {
                    &&& (!spec_script_header_ok(bin_data@, play_data) || spec_parse_actions(
                        bin_data@,
                        spec_script_cursor(bin_data@, play_data),
                        spec_db_view(instruction_db@),
                    ) is None)
                    &&& (e == CodecError::TooShort || e == CodecError::DecodeOverrun)
                },
            },
    {
        let ghost dbv = spec_db_view(instruction_db@);
        let mut play_data_array: Vec<PlayData> = Vec::new();
        let mut cursor: usize = 0;
        if play_data {
            if bin_data.len() < 2 {
                return Err(CodecError::TooShort);
            }
            let count: usize = if bin_data[1] == 5 {
                5
            } else {
                1
            };
            if bin_data.len() < 0x80 * (count + 1) {
                return Err(CodecError::TooShort);
            }
            play_data_array.push(PlayData::from_bin(bin_data));
            if bin_data[1] < 0x81 && bin_data[1] > 0x02 {
                if bin_data[1] == 5 {
                    cursor = 0x300;
                } else {
                    cursor = 0x100;
                    if bin_data[0x50] & 0x01 > 0 {
                        cursor = 0x180;
                    }
                    if bin_data[0x50] & 0x02 > 0 {
                        cursor += 0x80;
                    }
                    if bin_data[0x50] & 0x04 > 0 {
                        cursor += 0x80;
                    }
                    if bin_data[0x50] & 0x08 > 0 {
                        cursor += 0x80;
                    }
                }
            } else {
                cursor = 0x80;
            }
            proof {
                assert(cursor as int == spec_prelude_base(bin_data@));
                assert(cursor <= 0x300);
            }
            if cursor >= bin_data.len() {
                return Err(CodecError::TooShort);
            }
            if bin_data[cursor] == 0xE5 {
                if 2 * cursor > bin_data.len() {
                    return Err(CodecError::TooShort);
                }
                proof {
                    assert(2 * cursor <= bin_data@.len());
                }
                let mut sub: Vec<u8> = Vec::new();
                let mut p: usize = cursor;
                while p < 2 * cursor
                    invariant
                        cursor <= p <= 2 * cursor,
                        2 * cursor <= bin_data@.len(),
                        bin_data@.len() <= usize::MAX - 64,
                        sub@.len() == p - cursor,
                        forall|q: int| 0 <= q < sub@.len() ==> sub@[q] == bin_data@[cursor + q],
                    decreases 2 * cursor - p,
                {
                    sub.push(bin_data[p]);
                    p += 1;
                }
                proof {
                    assert(sub@ =~= bin_data@.subrange(cursor as int, 2 * cursor));
                }
                let ct2: usize = if sub[1] == 5 {
                    5
                } else {
                    1
                };
                if sub.len() < 0x80 * (ct2 + 1) {
                    return Err(CodecError::TooShort);
                }
                play_data_array.push(PlayData::from_bin(&sub));
                cursor = 2 * cursor;
            }
        }
        proof {
            assert(spec_script_header_ok(bin_data@, play_data));
            assert(cursor as int == spec_script_cursor(bin_data@, play_data));
        }
        let ghost cursor0 = cursor as int;
        let mut actions: Vec<ScriptAction> = Vec::new();
        loop
            invariant
                cursor0 <= cursor <= bin_data@.len() || cursor as int == cursor0,
                cursor <= bin_data@.len(),
                bin_data@.len() <= usize::MAX - 64,
                instruction_db@.len() == 256,
                dbv == spec_db_view(instruction_db@),
                spec_script_header_ok(bin_data@, play_data),
                cursor0 == spec_script_cursor(bin_data@, play_data),
                spec_parse_actions(bin_data@, cursor0, dbv) == (match spec_parse_actions(
                    bin_data@,
                    cursor as int,
                    dbv,
                ) {
                    None => None::<Seq<(u32, u16, u8, u8, Seq<(u8, Seq<InstructionArgument>)>)>>,
                    Some(rest) => Some(
                        actions@.map_values(|a: ScriptAction| spec_action_shadow(a)) + rest,
                    ),
                }),
            ensures
                spec_parse_actions(bin_data@, cursor0, dbv) == Some(
                    actions@.map_values(|a: ScriptAction| spec_action_shadow(a)),
                ),
            decreases bin_data@.len() - cursor,
        {
            if cursor >= bin_data.len() {
                proof {
                    assert(spec_parse_actions(bin_data@, cursor as int, dbv) == Some(
                        Seq::<(u32, u16, u8, u8, Seq<(u8, Seq<InstructionArgument>)>)>::empty(),
                    ));
                    assert(actions@.map_values(|a: ScriptAction| spec_action_shadow(a)) + Seq::<
                        (u32, u16, u8, u8, Seq<(u8, Seq<InstructionArgument>)>),
                    >::empty() =~= actions@.map_values(|a: ScriptAction| spec_action_shadow(a)));
                }
                break ;
            }
            if cursor + 2 <= bin_data.len() && bin_data[cursor] == 0xFD && bin_data[cursor + 1]
                == 0x00 {
                proof {
                    assert(spec_parse_actions(bin_data@, cursor as int, dbv) == Some(
                        Seq::<(u32, u16, u8, u8, Seq<(u8, Seq<InstructionArgument>)>)>::empty(),
                    ));
                    assert(actions@.map_values(|a: ScriptAction| spec_action_shadow(a)) + Seq::<
                        (u32, u16, u8, u8, Seq<(u8, Seq<InstructionArgument>)>),
                    >::empty() =~= actions@.map_values(|a: ScriptAction| spec_action_shadow(a)));
                }
                break ;
            }
            if cursor + 8 > bin_data.len() {
                return Err(CodecError::DecodeOverrun);
            }
            let flags = u32_from_le(
                bin_data[cursor],
                bin_data[cursor + 1],
                bin_data[cursor + 2],
                bin_data[cursor + 3],
            );
            let lvflag = u16_from_le(bin_data[cursor + 4], bin_data[cursor + 5]);
            let damage = bin_data[cursor + 6];
            let flag2 = bin_data[cursor + 7];
            let ghost action_base = cursor as int;
            let mut icursor: usize = cursor + 8;
            let mut instructions: Vec<Instruction> = Vec::new();
            let mut action_over: bool = false;
            while !action_over && icursor < bin_data.len()
                invariant
                    action_base + 8 <= icursor <= bin_data@.len(),
                    bin_data@.len() <= usize::MAX - 64,
                    instruction_db@.len() == 256,
                    dbv == spec_db_view(instruction_db@),
                    0 <= action_base < bin_data@.len(),
                    !(bin_data@[action_base] == 0xFD && bin_data@[action_base + 1] == 0x00),
                    spec_script_header_ok(bin_data@, play_data),
                    cursor0 == spec_script_cursor(bin_data@, play_data),
                    spec_parse_actions(bin_data@, cursor0, dbv) == (match spec_parse_actions(
                        bin_data@,
                        action_base,
                        dbv,
                    ) {
                        None => None::<
                            Seq<(u32, u16, u8, u8, Seq<(u8, Seq<InstructionArgument>)>)>,
                        >,
                        Some(rest) => Some(
                            actions@.map_values(|a: ScriptAction| spec_action_shadow(a)) + rest,
                        ),
                    }),
                    !action_over ==> spec_parse_instrs(bin_data@, action_base + 8, dbv) == (
                    match spec_parse_instrs(bin_data@, icursor as int, dbv) {
                        None => None::<(Seq<(u8, Seq<InstructionArgument>)>, int)>,
                        Some(rest) => Some(
                            (
                                instructions@.map_values(|x: Instruction| spec_instr_shadow(x))
                                    + rest.0,
                                rest.1,
                            ),
                        ),
                    }),
                    action_over ==> spec_parse_instrs(bin_data@, action_base + 8, dbv) == Some(
                        (
                            instructions@.map_values(|x: Instruction| spec_instr_shadow(x)),
                            icursor as int,
                        ),
                    ),
                decreases bin_data@.len() - icursor,
            {
                let id = bin_data[icursor];
                let ghost pre_instrs = instructions@;
                let ghost pre_cursor = icursor as int;
                match parse_args(bin_data, icursor + 1, &instruction_db[id as usize].args) {
                    None => {
                        proof {
                            assert(dbv[id as int] == instruction_db@[id as int].args@);
                            assert(spec_parse_instrs(bin_data@, icursor as int, dbv) is None);
                        }
                        return Err(CodecError::DecodeOverrun);
                    },
                    Some(parsed) => {
                        let arg_vec = parsed.0;
                        let c2 = parsed.1;
                        let instr = Instruction { id, arguments: arg_vec };
                        let ghost ishadow = spec_instr_shadow(instr);
                        instructions.push(instr);
                        action_over = id == 0xFF;
                        icursor = c2;
                        proof {
                            assert(dbv[id as int] == instruction_db@[id as int].args@);
                            assert(instructions@.map_values(|x: Instruction| spec_instr_shadow(x))
                                =~= pre_instrs.map_values(|x: Instruction| spec_instr_shadow(x))
                                + seq![ishadow]);
                            let tail = spec_parse_instrs(bin_data@, pre_cursor, dbv);
                            if id == 0xFF {
                                assert(tail == Some((seq![ishadow], icursor as int)));
                            } else {
                                assert forall|rest0: Seq<(u8, Seq<InstructionArgument>)>|
                                    true implies pre_instrs.map_values(
                                    |x: Instruction| spec_instr_shadow(x),
                                ) + (seq![ishadow] + rest0) =~= instructions@.map_values(
                                    |x: Instruction| spec_instr_shadow(x),
                                ) + rest0 by {}
                            }
                        }
                    },
                }
            }
            proof {
                if !action_over {
                    assert(spec_parse_instrs(bin_data@, icursor as int, dbv) == Some(
                        (Seq::<(u8, Seq<InstructionArgument>)>::empty(), icursor as int),
                    ));
                    assert(instructions@.map_values(|x: Instruction| spec_instr_shadow(x)) + Seq::<
                        (u8, Seq<InstructionArgument>),
                    >::empty() =~= instructions@.map_values(
                        |x: Instruction| spec_instr_shadow(x),
                    ));
                }
                assert(spec_parse_instrs(bin_data@, action_base + 8, dbv) == Some(
                    (
                        instructions@.map_values(|x: Instruction| spec_instr_shadow(x)),
                        icursor as int,
                    ),
                ));
            }
            let ghost pre_actions = actions@;
            let ghost this_shadow = (
                flags,
                lvflag,
                damage,
                flag2,
                instructions@.map_values(|x: Instruction| spec_instr_shadow(x)),
            );
            actions.push(ScriptAction { flags, lvflag, damage, flag2, instructions });
            cursor = icursor;
            proof {
                assert(actions@.map_values(|a: ScriptAction| spec_action_shadow(a))
                    =~= pre_actions.map_values(|a: ScriptAction| spec_action_shadow(a)) + seq![
                    this_shadow,
                ]);
                assert forall|rest0: Seq<(u32, u16, u8, u8, Seq<(u8, Seq<InstructionArgument>)>)>|
                    true implies pre_actions.map_values(|a: ScriptAction| spec_action_shadow(a)) + (
                seq![this_shadow] + rest0) =~= actions@.map_values(
                    |a: ScriptAction| spec_action_shadow(a),
                ) + rest0 by {}
            }
        }
        Ok(BinScript { has_play_data: play_data, play_data: play_data_array, actions })
    }
}

/// The stored bytes of one action.
pub open spec fn spec_action_bytes(a: ScriptAction) -> Seq<u8> {
    spec_u32_le_bytes(a.flags) + spec_u16_le_bytes(a.lvflag) + seq![a.damage, a.flag2]
        + spec_instrs_bytes(a.instructions@)
}

/// The stored bytes of an action list.
pub open spec fn spec_actions_bytes(actions: Seq<ScriptAction>) -> Seq<u8>
    decreases actions.len(),
{
    if actions.len() == 0 {
        Seq::empty()
    } else {
        spec_action_bytes(actions[0]) + spec_actions_bytes(
            actions.subrange(1, actions.len() as int),
        )
    }
}

/// Appending one action extends the serialized list by its bytes.
proof fn lemma_actions_bytes_snoc(actions: Seq<ScriptAction>, i: int)
    requires
        0 <= i < actions.len(),
    ensures
        spec_actions_bytes(actions.subrange(0, i + 1)) == spec_actions_bytes(
            actions.subrange(0, i),
        ) + spec_action_bytes(actions[i]),
    decreases i,
{
    if i == 0 {
        let s1 = actions.subrange(0, 1);
        assert(s1.len() == 1);
        assert(s1[0] == actions[0]);
        assert(s1.subrange(1, 1) =~= Seq::<ScriptAction>::empty());
        assert(spec_actions_bytes(Seq::<ScriptAction>::empty()) =~= Seq::<u8>::empty());
        assert(spec_actions_bytes(s1) == spec_action_bytes(s1[0]) + spec_actions_bytes(
            s1.subrange(1, 1),
        ));
        assert(spec_actions_bytes(actions.subrange(0, 0)) =~= Seq::<u8>::empty());
        assert(spec_actions_bytes(s1) =~= spec_action_bytes(actions[0]));
        assert(spec_actions_bytes(actions.subrange(0, 0)) + spec_action_bytes(actions[0])
            =~= spec_action_bytes(actions[0]));
    } else {
        let rest = actions.subrange(1, actions.len() as int);
        lemma_actions_bytes_snoc(rest, i - 1);
        assert(actions.subrange(0, i + 1)[0] == actions[0]);
        assert(actions.subrange(0, i + 1).subrange(1, i + 1) =~= rest.subrange(0, i));
        assert(actions.subrange(0, i)[0] == actions[0]);
        assert(actions.subrange(0, i).subrange(1, i) =~= rest.subrange(0, i - 1));
        assert(rest[i - 1] == actions[i]);
        assert(spec_actions_bytes(actions.subrange(0, i + 1)) =~= spec_actions_bytes(
            actions.subrange(0, i),
        ) + spec_action_bytes(actions[i]));
    }
}


/// Stored word `k` of the play variables (the header, then the 39
/// values in stored order).
pub open spec fn spec_play_vars_word(v: PlayVariables, k: int) -> u16 {
    if k == 0 {
        v.header
    } else if k == 1 {
        v.walk_fwd_x_speed as u16
    } else if k == 2 {
        v.walk_bwd_x_speed as u16
    } else if k == 3 {
        v.dash_x_speed as u16
    } else if k == 4 {
        v.backdash_x_speed as u16
    } else if k == 5 {
        v.backdash_y_speed as u16
    } else if k == 6 {
        v.backdash_gravity as u16
    } else if k == 7 {
        v.jump_fwd_x_speed as u16
    } else if k == 8 {
        v.jump_bwd_x_speed as u16
    } else if k == 9 {
        v.jump_y_speed as u16
    } else if k == 10 {
        v.jump_gravity as u16
    } else if k == 11 {
        v.sjump_fwd_x_speed as u16
    } else if k == 12 {
        v.sjump_bwd_x_speed as u16
    } else if k == 13 {
        v.sjump_y_speed as u16
    } else if k == 14 {
        v.sjump_gravity as u16
    } else if k == 15 {
        v.dash_acceleration as u16
    } else if k == 16 {
        v.dash_resist as u16
    } else if k == 17 {
        v.homing_jump_y_max as u16
    } else if k == 18 {
        v.homing_jump_x_max as u16
    } else if k == 19 {
        v.homing_jump_x_resist as u16
    } else if k == 20 {
        v.homing_target_y_offset as u16
    } else if k == 21 {
        v.airdash_height as u16
    } else if k == 22 {
        v.pd_airdash_fwd_time as u16
    } else if k == 23 {
        v.pd_airdash_bwd_time as u16
    } else if k == 24 {
        v.pd_faint_point as u16
    } else if k == 25 {
        v.pd_defense_point as u16
    } else if k == 26 {
        v.pd_konjo as u16
    } else if k == 27 {
        v.pd_kaishin as u16
    } else if k == 28 {
        v.pd_defense_gravity as u16
    } else if k == 29 {
        v.pd_airdash_count as u16
    } else if k == 30 {
        v.pd_jump_count as u16
    } else if k == 31 {
        v.pd_airdash_fwd_atk_time as u16
    } else if k == 32 {
        v.pd_airdash_bwd_atk_time as u16
    } else if k == 33 {
        v.pd_tension_walk as u16
    } else if k == 34 {
        v.pd_tension_jump as u16
    } else if k == 35 {
        v.pd_tension_dash as u16
    } else if k == 36 {
        v.pd_tension_airdash as u16
    } else if k == 37 {
        v.pdgc_gauge_def_point as u16
    } else if k == 38 {
        v.pdgc_gauge_recovery as u16
    } else {
        v.pd_tension_ib as u16
    }
}

/// The serialized bytes of the play variables: 40 little-endian words
/// then the padding block.
pub open spec fn spec_play_vars_bytes(v: PlayVariables) -> Seq<u8> {
    Seq::new(
        (0x50 + v.padding@.len()) as nat,
        |i: int|
            if i < 0x50 {
                spec_u16_le_bytes(spec_play_vars_word(v, i / 2))[i % 2]
            } else {
                v.padding@[i - 0x50]
            },
    )
}

/// An unsigned word survives the round trip through its signed view.
proof fn lemma_u16_i16_roundtrip(u: u16)
    ensures
        ((u as i16) as u16) == u,
{
    assert((u as i16) as u16 == u) by (bit_vector);
}

/// The stored word values determine the stored bytes: a buffer whose
/// words match the play variables holds exactly their serialization.
#[verifier::rlimit(100)]
proof fn lemma_play_vars_bytes_unique(v: PlayVariables, d: Seq<u8>)
    requires
        d.len() >= 0x80,
        v.padding@.len() == 0x30,
        spec_play_variables_matches(v, d),
    ensures
        d.subrange(0, 0x80) == spec_play_vars_bytes(v),
{
    assert forall|u: u16| #[trigger] ((u as i16) as u16) == u by {
        lemma_u16_i16_roundtrip(u);
    }
    assert forall|i: int| 0 <= i < 0x80 implies d.subrange(0, 0x80)[i] == spec_play_vars_bytes(
        v,
    )[i] by {
        if i < 0x50 {
            let k = i / 2;
            let w = spec_play_vars_word(v, k);
            assert(spec_u16_le(d[2 * k], d[2 * k + 1]) == w);
            vstd::arithmetic::div_mod::lemma_fundamental_div_mod_converse(
                w as int,
                256,
                d[2 * k + 1] as int,
                d[2 * k] as int,
            );
            vstd::arithmetic::div_mod::lemma_fundamental_div_mod_converse(i, 2, k, i % 2);
        } else {
            assert(d.subrange(0x50, 0x80)[i - 0x50] == d[i]);
        }
    }
    assert(d.subrange(0, 0x80) =~= spec_play_vars_bytes(v));
}

/// The serialized bytes of one chain table: its 32 words, little
/// endian.
pub open spec fn spec_chain_table_bytes(t: ChainTable) -> Seq<u8> {
    Seq::new(0x80, |i: int| spec_u32_le_bytes(spec_chain_word(t, i / 4))[i % 4])
}

/// A buffer whose words match a chain table holds exactly its
/// serialization.
/// The four little-endian bytes of a word are determined by its value.
proof fn lemma_u32_bytes_unique(w: u32, b0: u8, b1: u8, b2: u8, b3: u8)
    requires
        w == b0 + 0x100 * (b1 as int) + 0x10000 * (b2 as int) + 0x1000000 * (b3 as int),
    ensures
        b0 == w % 0x100,
        b1 == (w / 0x100) % 0x100,
        b2 == (w / 0x10000) % 0x100,
        b3 == w / 0x1000000,
{
    vstd::arithmetic::div_mod::lemma_fundamental_div_mod_converse(
        w as int,
        0x100,
        b1 + 0x100 * (b2 as int) + 0x10000 * (b3 as int),
        b0 as int,
    );
    vstd::arithmetic::div_mod::lemma_fundamental_div_mod_converse(
        b1 + 0x100 * (b2 as int) + 0x10000 * (b3 as int),
        0x100,
        b2 + 0x100 * (b3 as int),
        b1 as int,
    );
    vstd::arithmetic::div_mod::lemma_fundamental_div_mod_converse(
        b2 + 0x100 * (b3 as int),
        0x100,
        b3 as int,
        b2 as int,
    );
}

#[verifier::rlimit(100)]
proof fn lemma_chain_bytes_unique(t: ChainTable, d: Seq<u8>, base: int)
    requires
        0 <= base,
        base + 0x80 <= d.len(),
        spec_chain_matches(t, d, base),
    ensures
        d.subrange(base, base + 0x80) == spec_chain_table_bytes(t),
{
    assert forall|i: int| 0 <= i < 0x80 implies d.subrange(base, base + 0x80)[i]
        == spec_chain_table_bytes(t)[i] by {
        let k = i / 4;
        let w = spec_chain_word(t, k);
        assert(spec_u32_le(d[base + 4 * k], d[base + 4 * k + 1], d[base + 4 * k + 2], d[base + 4
            * k + 3]) == w);
        lemma_u32_bytes_unique(
            w,
            d[base + 4 * k],
            d[base + 4 * k + 1],
            d[base + 4 * k + 2],
            d[base + 4 * k + 3],
        );
        vstd::arithmetic::div_mod::lemma_fundamental_div_mod_converse(i, 4, k, i % 4);
    }
    assert(d.subrange(base, base + 0x80) =~= spec_chain_table_bytes(t));
}

/// The serialized bytes of a chain-table list.
pub open spec fn spec_chains_bytes(ts: Seq<ChainTable>) -> Seq<u8> {
    Seq::new(0x80 * ts.len(), |i: int| spec_chain_table_bytes(ts[i / 0x80])[i % 0x80])
}

/// The serialized bytes of one play-data block: the variables then its
/// chain tables.
pub open spec fn spec_pd_bytes(p: PlayData) -> Seq<u8> {
    spec_play_vars_bytes(p.variables) + spec_chains_bytes(p.chain_tables@)
}

/// A buffer a play-data block serializes into holds exactly its
/// serialization.
proof fn lemma_pd_bytes_unique(p: PlayData, d: Seq<u8>)
    requires
        p.variables.padding@.len() == 0x30,
        p.chain_tables@.len() <= 16,
        d.len() == 0x80 + 0x80 * p.chain_tables@.len(),
        spec_play_variables_matches(p.variables, d),
        forall|t: int| 0 <= t < p.chain_tables@.len() ==> spec_chain_matches(
            #[trigger] p.chain_tables@[t],
            d,
            0x80 * (t + 1),
        ),
    ensures
        d == spec_pd_bytes(p),
{
    lemma_play_vars_bytes_unique(p.variables, d);
    assert forall|i: int| 0 <= i < d.len() implies d[i] == spec_pd_bytes(p)[i] by {
        if i < 0x80 {
            assert(d.subrange(0, 0x80)[i] == d[i]);
        } else {
            let t = (i - 0x80) / 0x80;
            let off = (i - 0x80) % 0x80;
            vstd::arithmetic::div_mod::lemma_fundamental_div_mod_converse(i - 0x80, 0x80, t, off);
            lemma_chain_bytes_unique(p.chain_tables@[t], d, 0x80 * (t + 1));
            assert(d.subrange(0x80 * (t + 1), 0x80 * (t + 1) + 0x80)[off] == d[i]);
            assert(spec_chains_bytes(p.chain_tables@)[i - 0x80] == spec_chain_table_bytes(
                p.chain_tables@[t],
            )[off]);
        }
    }
    assert(d =~= spec_pd_bytes(p));
}

/// The serialized bytes of a play-data list.
pub open spec fn spec_pds_bytes(ps: Seq<PlayData>) -> Seq<u8>
    decreases ps.len(),
{
    if ps.len() == 0 {
        Seq::empty()
    } else {
        spec_pd_bytes(ps[0]) + spec_pds_bytes(ps.subrange(1, ps.len() as int))
    }
}

/// Appending one play-data block extends the serialized list by its
/// bytes.
proof fn lemma_pds_bytes_snoc(ps: Seq<PlayData>, i: int)
    requires
        0 <= i < ps.len(),
    ensures
        spec_pds_bytes(ps.subrange(0, i + 1)) == spec_pds_bytes(ps.subrange(0, i)) + spec_pd_bytes(
            ps[i],
        ),
    decreases i,
{
    if i == 0 {
        let s1 = ps.subrange(0, 1);
        assert(s1.len() == 1);
        assert(s1[0] == ps[0]);
        assert(s1.subrange(1, 1) =~= Seq::<PlayData>::empty());
        assert(spec_pds_bytes(Seq::<PlayData>::empty()) =~= Seq::<u8>::empty());
        assert(spec_pds_bytes(s1) == spec_pd_bytes(s1[0]) + spec_pds_bytes(s1.subrange(1, 1)));
        assert(ps.subrange(0, 0) =~= Seq::<PlayData>::empty());
        assert(spec_pds_bytes(s1) =~= spec_pd_bytes(ps[0]));
        assert(spec_pds_bytes(ps.subrange(0, 0)) + spec_pd_bytes(ps[0]) =~= spec_pd_bytes(ps[0]));
    } else {
        let rest = ps.subrange(1, ps.len() as int);
        lemma_pds_bytes_snoc(rest, i - 1);
        assert(ps.subrange(0, i + 1)[0] == ps[0]);
        assert(ps.subrange(0, i + 1).subrange(1, i + 1) =~= rest.subrange(0, i));
        assert(ps.subrange(0, i)[0] == ps[0]);
        assert(ps.subrange(0, i).subrange(1, i) =~= rest.subrange(0, i - 1));
        assert(rest[i - 1] == ps[i]);
        assert(spec_pds_bytes(ps.subrange(0, i + 1)) =~= spec_pds_bytes(ps.subrange(0, i))
            + spec_pd_bytes(ps[i]));
    }
}

/// The serialized length of one play-data block.
pub open spec fn spec_pd_len(p: PlayData) -> int {
    0x80 + 0x80 * p.chain_tables@.len() as int
}

/// The serialized offset of play-data block `k`.
pub open spec fn spec_pd_offset(ps: Seq<PlayData>, k: int) -> int
    decreases k,
{
    if k <= 0 {
        0
    } else {
        spec_pd_offset(ps, k - 1) + spec_pd_len(ps[k - 1])
    }
}

impl BinScript {
    /// Serializes the script: every play-data block, every action, the
    /// `0xFD 0x00` terminator, and zero padding to a 16-byte boundary.
    #[verifier::rlimit(100)]
    pub fn to_bin(&self) -> (r: Vec<u8>)
        requires
            self.play_data@.len() <= 4,
            forall|k: int| 0 <= k < self.play_data@.len() ==> (#[trigger] self.play_data@[k]).variables.padding@.len()
                == 0x30 && self.play_data@[k].chain_tables@.len() <= 16,
        ensures
            ({
                let pdt = spec_pd_offset(self.play_data@, self.play_data@.len() as int);
                let ab = spec_actions_bytes(self.actions@);
                let raw = pdt + ab.len() + 2;
                &&& r@.len() == raw + ((16 - raw % 16) % 16)
                &&& r@.subrange(0, pdt) == spec_pds_bytes(self.play_data@)
                &&& r@.subrange(pdt, pdt + ab.len() as int) == ab
                &&& r@[pdt + ab.len() as int] == 0xFD
                &&& r@[pdt + ab.len() + 1] == 0x00
                &&& (forall|j: int| raw <= j < r@.len() ==> r@[j] == 0)
            }),
    {
        let mut bin_data: Vec<u8> = Vec::new();
        let mut t: usize = 0;
        proof {
            assert(self.play_data@.subrange(0, 0) =~= Seq::<PlayData>::empty());
        }
        while t < self.play_data.len()
            invariant
                t <= self.play_data@.len(),
                self.play_data@.len() <= 4,
                forall|k: int| 0 <= k < self.play_data@.len() ==> (#[trigger] self.play_data@[k]).variables.padding@.len()
                    == 0x30 && self.play_data@[k].chain_tables@.len() <= 16,
                bin_data@ == spec_pds_bytes(self.play_data@.subrange(0, t as int)),
                bin_data@.len() == spec_pd_offset(self.play_data@, t as int),
                bin_data@.len() <= 0x1100 * t,
            decreases self.play_data@.len() - t,
        {
            let mut piece = self.play_data[t].to_bin();
            let ghost pv = piece@;
            bin_data.append(&mut piece);
            proof {
                assert(pv.len() == spec_pd_len(self.play_data@[t as int]));
                lemma_pd_bytes_unique(self.play_data@[t as int], pv);
                lemma_pds_bytes_snoc(self.play_data@, t as int);
            }
            t += 1;
        }
        proof {
            assert(self.play_data@.subrange(0, self.play_data@.len() as int)
                =~= self.play_data@);
        }
        let ghost pdt = bin_data@.len() as int;
        let ghost pds = bin_data@;
        let mut a: usize = 0;
        while a < self.actions.len()
            invariant
                a <= self.actions@.len(),
                pdt == pds.len(),
                bin_data@.len() == pds.len() + spec_actions_bytes(
                    self.actions@.subrange(0, a as int),
                ).len(),
                bin_data@.subrange(0, pdt) == pds,
                bin_data@.subrange(pdt, bin_data@.len() as int) == spec_actions_bytes(
                    self.actions@.subrange(0, a as int),
                ),
            decreases self.actions@.len() - a,
        {
            let mut piece = self.actions[a].to_bin();
            let ghost pv = piece@;
            bin_data.append(&mut piece);
            proof {
                lemma_actions_bytes_snoc(self.actions@, a as int);
                assert(bin_data@.subrange(0, pdt) =~= pds);
                assert(bin_data@.subrange(pdt, bin_data@.len() as int) =~= spec_actions_bytes(
                    self.actions@.subrange(0, a + 1),
                ));
            }
            a += 1;
        }
        proof {
            assert(self.actions@.subrange(0, self.actions@.len() as int) =~= self.actions@);
        }
        let ghost av = bin_data@;
        bin_data.push(0xFD);
        bin_data.push(0x00);
        let ghost raw_len = bin_data@.len() as int;
        let ghost raw = bin_data@;
        let pad: usize = (16 - (bin_data.len() % 16)) % 16;
        let mut j: usize = 0;
        while j < pad
            invariant
                j <= pad,
                pad <= 15,
                bin_data@.len() == raw.len() + j,
                bin_data@.subrange(0, raw.len() as int) == raw,
                forall|q: int| raw.len() <= q < bin_data@.len() ==> bin_data@[q] == 0,
            decreases pad - j,
        {
            bin_data.push(0x00);
            proof {
                assert(bin_data@.subrange(0, raw.len() as int) =~= raw);
            }
            j += 1;
        }
        proof {
            let ab = spec_actions_bytes(self.actions@);
            assert forall|q: int| 0 <= q < raw.len() implies bin_data@[q] == raw[q] by {
                assert(bin_data@.subrange(0, raw.len() as int)[q] == bin_data@[q]);
            }
            assert forall|q: int| 0 <= q < ab.len() implies bin_data@[pdt + q] == ab[q] by {
                assert(raw[pdt + q] == av[pdt + q]);
                assert(av.subrange(pdt, av.len() as int)[q] == av[pdt + q]);
            }
            assert(bin_data@.subrange(pdt, pdt + ab.len() as int) =~= ab);
            assert(raw[av.len() as int] == 0xFD);
            assert(raw[av.len() as int + 1] == 0x00);
        }
        bin_data
    }
}

/// Play-data offsets grow with the blocks before them and stay within
/// the total.
proof fn lemma_pd_offset_bounds(ps: Seq<PlayData>, k: int)
    requires
        0 <= k < ps.len(),
    ensures
        0 <= spec_pd_offset(ps, k),
        spec_pd_offset(ps, k) + spec_pd_len(ps[k]) <= spec_pd_offset(ps, ps.len() as int),
    decreases ps.len() - k,
{
    if k + 1 == ps.len() {
        lemma_pd_offset_nonneg(ps, k);
    } else {
        lemma_pd_offset_nonneg(ps, k);
        lemma_pd_offset_mono(ps, k + 1, ps.len() as int);
    }
}

/// Offsets are never negative.
proof fn lemma_pd_offset_nonneg(ps: Seq<PlayData>, k: int)
    requires
        0 <= k <= ps.len(),
    ensures
        0 <= spec_pd_offset(ps, k),
    decreases k,
{
    if k > 0 {
        lemma_pd_offset_nonneg(ps, k - 1);
    }
}

/// Offsets are monotone.
proof fn lemma_pd_offset_mono(ps: Seq<PlayData>, a: int, b: int)
    requires
        0 <= a <= b <= ps.len(),
    ensures
        spec_pd_offset(ps, a) <= spec_pd_offset(ps, b),
    decreases b - a,
{
    if a < b {
        lemma_pd_offset_mono(ps, a, b - 1);
    }
}

} // verus!
