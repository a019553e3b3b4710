use chip8::Emulator;
use chip8::Error;
use chip8::Instruction;

#[test]
fn test_cls() -> Result<(), Error> {
    let mut emulator = Emulator::except_rng();
    emulator.display.toggle(0, 0);
    emulator.display.toggle(6, 1);

    emulator.execute(Instruction::CLS)?;
    assert!(emulator.display.pixel_rows().iter().all(|r| *r == 0));
    Ok(())
}

#[test]
fn test_ret() -> Result<(), Error> {
    let mut emulator = Emulator::except_rng();
    emulator.stack.push(0x230)?;
    emulator.execute(Instruction::RET)?;

    assert_eq!(emulator.pc, 0x230);
    Ok(())
}

#[test]
fn test_jp() -> Result<(), Error> {
    let mut emulator = Emulator::except_rng();
    emulator.execute(Instruction::JP(0x320))?;

    assert_eq!(emulator.pc, 0x320);
    Ok(())
}

#[test]
fn test_call() -> Result<(), Error> {
    let mut emulator = Emulator::except_rng();
    emulator.pc = 0x240;
    emulator.execute(Instruction::CALL(0x350))?;

    assert_eq!(emulator.pc, 0x350);
    assert_eq!(emulator.stack.pop()?, 0x240);
    Ok(())
}

#[test]
fn test_sevxkk_skip() -> Result<(), Error> {
    let mut emulator = Emulator::except_rng();
    emulator.pc = 0;
    emulator.v[0x6] = 0xA5;
    emulator.execute(Instruction::SEVxKK(0x6, 0xA5))?;

    assert_eq!(emulator.pc, 2);
    Ok(())
}

#[test]
fn test_sevxkk_no_skip() -> Result<(), Error> {
    let mut emulator = Emulator::except_rng();
    emulator.pc = 0;
    emulator.v[0x6] = 0xA5;
    emulator.execute(Instruction::SEVxKK(0x6, 0x02))?;

    assert_eq!(emulator.pc, 0);
    Ok(())
}

#[test]
fn test_snevxkk_skip() -> Result<(), Error> {
    let mut emulator = Emulator::except_rng();
    emulator.pc = 0;
    emulator.v[0x6] = 0xF3;
    emulator.execute(Instruction::SNEVxKK(0x6, 0x09))?;

    assert_eq!(emulator.pc, 2);
    Ok(())
}

#[test]
fn test_snevxkk_no_skip() -> Result<(), Error> {
    let mut emulator = Emulator::except_rng();
    emulator.pc = 0;
    emulator.v[0x6] = 0xC9;
    emulator.execute(Instruction::SNEVxKK(0x6, 0xC9))?;

    assert_eq!(emulator.pc, 0);
    Ok(())
}

#[test]
fn test_sevxvy_skip() -> Result<(), Error> {
    let mut emulator = Emulator::except_rng();
    emulator.pc = 0;
    emulator.v[0xB] = 0x56;
    emulator.v[0x5] = 0x56;
    emulator.execute(Instruction::SEVxVy(0xB, 0x5))?;

    assert_eq!(emulator.pc, 2);
    Ok(())
}

#[test]
fn test_sevxvy_no_skip() -> Result<(), Error> {
    let mut emulator = Emulator::except_rng();
    emulator.pc = 0;
    emulator.v[0x3] = 0x26;
    emulator.v[0x9] = 0xBF;
    emulator.execute(Instruction::SEVxVy(0x3, 0x9))?;

    assert_eq!(emulator.pc, 0);
    Ok(())
}

#[test]
fn test_ldvxkk() -> Result<(), Error> {
    let mut emulator = Emulator::except_rng();
    emulator.execute(Instruction::LDVxKK(0x4, 0x12))?;

    assert_eq!(emulator.v[0x4], 0x12);
    Ok(())
}

#[test]
fn test_addvxkk() -> Result<(), Error> {
    let mut emulator = Emulator::except_rng();
    emulator.v[0x2] = 0x15;
    emulator.execute(Instruction::ADDVxKK(0x2, 0x06))?;

    assert_eq!(emulator.v[0x2], 0x1B);
    Ok(())
}

#[test]
fn test_ldvxvy() -> Result<(), Error> {
    let mut emulator = Emulator::except_rng();
    emulator.v[0xC] = 0x24;
    emulator.execute(Instruction::LDVxVy(0x0, 0xC))?;

    assert_eq!(emulator.v[0x0], 0x24);
    Ok(())
}

#[test]
fn test_or() -> Result<(), Error> {
    let mut emulator = Emulator::except_rng();
    emulator.v[0x3] = 0b0110_1000;
    emulator.v[0x7] = 0b1000_1101;
    emulator.execute(Instruction::OR(0x3, 0x7))?;

    assert_eq!(emulator.v[0x3], 0b1110_1101);
    Ok(())
}

#[test]
fn test_and() -> Result<(), Error> {
    let mut emulator = Emulator::except_rng();
    emulator.v[0xB] = 0b0111_1010;
    emulator.v[0x1] = 0b1010_1111;
    emulator.execute(Instruction::AND(0xB, 0x1))?;

    assert_eq!(emulator.v[0xB], 0b0010_1010);
    Ok(())
}
