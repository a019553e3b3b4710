use chip8::Error;
use chip8::Stack;

#[test]
fn test_push_pop() -> Result<(), Error> {
    let mut stack = Stack::<12>::new();
    stack.push(7)?;
    stack.push(12)?;

    assert_eq!(stack.pop()?, 12);
    assert_eq!(stack.pop()?, 7);
    Ok(())
}

#[test]
fn test_reset() -> Result<(), Error> {
    let mut stack = Stack::<12>::new();
    stack.push(7)?;
    stack.push(10)?;
    stack.reset();

    assert_eq!(stack.sp, 0);
    Ok(())
}

#[test]
fn test_overflow() -> Result<(), Error> {
    let mut stack = Stack::<3>::new();
    stack.push(6)?;
    stack.push(9)?;
    stack.push(21)?;

    assert!(stack.push(7).is_err());
    Ok(())
}

#[test]
fn test_underflow() -> Result<(), Error> {
    let mut stack = Stack::<16>::new();

    assert!(stack.pop().is_err());
    Ok(())
}

#[test]
fn test_overflow_error_value() -> Result<(), Error> {
    let mut stack = Stack::<1>::new();
    stack.push(3)?;
    assert_eq!(stack.push(4), Err(Error::StackOverflow));
    assert_eq!(stack.pop()?, 3);
    assert_eq!(stack.pop(), Err(Error::StackUnderflow));
    Ok(())
}
