//! Script codec behaviour on concrete instruction streams.

use ggbin::error::CodecError;
use ggbin::script::{
    ArgSpec, BinScript, ChainTable, Instruction, InstructionArgument, InstructionDef,
    PlayVariables, ScriptAction,
};

/// An instruction table where every opcode takes no arguments except:
/// opcode 1 (one unsigned byte), opcode 2 (one signed 16-bit value),
/// opcode 3 (one unsigned 32-bit value and one byte).
fn sample_db() -> Vec<InstructionDef> {
    let mut db: Vec<InstructionDef> = Vec::new();
    for id in 0..256 {
        let args: Vec<ArgSpec> = match id {
            1 => vec![ArgSpec { size: 1, signed: false }],
            2 => vec![ArgSpec { size: 2, signed: true }],
            3 => vec![
                ArgSpec { size: 4, signed: false },
                ArgSpec { size: 1, signed: false },
            ],
            _ => vec![],
        };
        db.push(InstructionDef { args });
    }
    db
}

#[test]
fn parse_simple_action_stream() {
    let db = sample_db();
    // One action: header (flags 7, lvflag 9, damage 5, flag2 6),
    // opcode 1 with argument 0x2A, then the 0xFF end-of-action opcode,
    // then the 0xFD 0x00 terminator.
    let data: Vec<u8> = vec![
        7, 0, 0, 0, 9, 0, 5, 6, 1, 0x2A, 0xFF, 0xFD, 0x00,
    ];
    let script = BinScript::from_bin(&data, false, &db).unwrap();
    assert!(!script.has_play_data);
    assert!(script.play_data.is_empty());
    assert_eq!(script.actions.len(), 1);
    let action = &script.actions[0];
    assert_eq!(action.flags, 7);
    assert_eq!(action.lvflag, 9);
    assert_eq!(action.damage, 5);
    assert_eq!(action.flag2, 6);
    assert_eq!(action.instructions.len(), 2);
    assert_eq!(action.instructions[0].id, 1);
    assert_eq!(action.instructions[0].arguments.len(), 1);
    assert_eq!(action.instructions[0].arguments[0].value, 0x2A);
    assert_eq!(action.instructions[1].id, 0xFF);
}

#[test]
fn parse_signed_argument() {
    let db = sample_db();
    // Opcode 2 carries a signed 16-bit argument: -2 stored as 0xFFFE.
    let data: Vec<u8> = vec![
        0, 0, 0, 0, 0, 0, 0, 0, 2, 0xFE, 0xFF, 0xFF, 0xFD, 0x00,
    ];
    let script = BinScript::from_bin(&data, false, &db).unwrap();
    let action = &script.actions[0];
    assert_eq!(action.instructions[0].arguments[0].value, -2);
    assert!(action.instructions[0].arguments[0].signed);
}

#[test]
fn parse_truncated_argument_fails() {
    let db = sample_db();
    // Opcode 3 wants five argument bytes but only one remains.
    let data: Vec<u8> = vec![0, 0, 0, 0, 0, 0, 0, 0, 3, 1];
    match BinScript::from_bin(&data, false, &db) {
        Err(e) => assert_eq!(e, CodecError::DecodeOverrun),
        Ok(_) => panic!("truncated arguments must fail"),
    }
}

#[test]
fn parse_with_play_data() {
    let db = sample_db();
    // A play-data block whose discriminant byte selects a 0x100-byte
    // prelude (one chain table), then the terminator immediately.
    let mut data = vec![0u8; 0x100];
    data[0] = 0x00;
    data[1] = 0x04;
    // walk_fwd_x_speed = 3.
    data[2] = 3;
    // First chain word.
    data[0x80] = 0x11;
    data.push(0xFD);
    data.push(0x00);
    let script = BinScript::from_bin(&data, true, &db).unwrap();
    assert!(script.has_play_data);
    assert_eq!(script.play_data.len(), 1);
    assert_eq!(script.play_data[0].variables.header, 0x0400);
    assert_eq!(script.play_data[0].variables.walk_fwd_x_speed, 3);
    assert_eq!(script.play_data[0].chain_tables.len(), 1);
    assert_eq!(script.play_data[0].chain_tables[0].chain_5p, 0x11);
    assert!(script.actions.is_empty());
}

#[test]
fn play_variables_roundtrip() {
    let mut data = vec![0u8; 0x200];
    data[0] = 0x34;
    data[1] = 0x12;
    data[2] = 0xFE;
    data[3] = 0xFF;
    data[0x50] = 0xAB;
    let vars = PlayVariables::from_bin(&data);
    assert_eq!(vars.header, 0x1234);
    assert_eq!(vars.walk_fwd_x_speed, -2);
    assert_eq!(vars.padding.len(), 0x30);
    assert_eq!(vars.padding[0], 0xAB);
    let bytes = vars.to_bin();
    assert_eq!(bytes.len(), 0x80);
    assert_eq!(&bytes[..0x80], &data[..0x80]);
}

#[test]
fn chain_table_roundtrip() {
    let mut data = vec![0u8; 0x100];
    data[0x80] = 0x78;
    data[0x81] = 0x56;
    data[0x82] = 0x34;
    data[0x83] = 0x12;
    data[0xFC] = 0x99;
    let table = ChainTable::from_bin_single(&data, 0x80);
    assert_eq!(table.chain_5p, 0x12345678);
    assert_eq!(table.chain_unk31, 0x99);
    let bytes = table.to_bin();
    assert_eq!(bytes, &data[0x80..0x100]);
}

#[test]
fn action_serialization() {
    let action = ScriptAction {
        flags: 0x04030201,
        lvflag: 0x0605,
        damage: 7,
        flag2: 8,
        instructions: vec![
            Instruction {
                id: 1,
                arguments: vec![InstructionArgument { size: 1, value: 0x2A, signed: false }],
            },
            Instruction { id: 0xFF, arguments: vec![] },
        ],
    };
    assert_eq!(
        action.to_bin(),
        vec![1, 2, 3, 4, 5, 6, 7, 8, 1, 0x2A, 0xFF]
    );
}

#[test]
fn script_serialization_terminates_and_pads() {
    let script = BinScript {
        has_play_data: false,
        play_data: vec![],
        actions: vec![ScriptAction {
            flags: 0,
            lvflag: 0,
            damage: 0,
            flag2: 0,
            instructions: vec![Instruction { id: 0xFF, arguments: vec![] }],
        }],
    };
    let bytes = script.to_bin();
    // 8-byte header + 1 opcode + 2 terminator bytes = 11, padded to 16.
    assert_eq!(bytes.len(), 16);
    assert_eq!(bytes[8], 0xFF);
    assert_eq!(bytes[9], 0xFD);
    assert_eq!(bytes[10], 0x00);
    assert_eq!(&bytes[11..], &[0u8; 5]);
}

#[test]
fn script_roundtrip_through_bytes() {
    let db = sample_db();
    let script = BinScript {
        has_play_data: false,
        play_data: vec![],
        actions: vec![ScriptAction {
            flags: 0x11,
            lvflag: 0x22,
            damage: 3,
            flag2: 4,
            instructions: vec![
                Instruction {
                    id: 2,
                    arguments: vec![InstructionArgument { size: 2, value: -7, signed: true }],
                },
                Instruction { id: 0xFF, arguments: vec![] },
            ],
        }],
    };
    let bytes = script.to_bin();
    let back = BinScript::from_bin(&bytes, false, &db).unwrap();
    assert_eq!(back.actions.len(), 1);
    assert_eq!(back.actions[0].flags, 0x11);
    assert_eq!(back.actions[0].instructions[0].id, 2);
    assert_eq!(back.actions[0].instructions[0].arguments[0].value, -7);
}
