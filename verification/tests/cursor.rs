use ferrousc::cursor::Cursor;
use ferrousc::cursor::EOF_CHAR;

#[test]
fn test_is_eof() {
    let mut c = Cursor::new("1234\05");
    assert_eq!(c.eat(), '1');
    assert_eq!(c.eat(), '2');
    assert_eq!(c.eat(), '3');
    assert_eq!(c.eat(), '4');
    assert_eq!(c.eat(), EOF_CHAR);
    assert_eq!(c.is_eof(), false);
    assert_eq!(c.eat(), '5');
    assert_eq!(c.eat(), EOF_CHAR);
    assert_eq!(c.is_eof(), true);
    assert_eq!(c.eat(), EOF_CHAR);
    assert_eq!(c.is_eof(), true);
}

#[test]
fn test_eat() {
    let mut c = Cursor::new("1234");
    assert_eq!(c.eat(), '1');
    assert_eq!(c.eat(), '2');
    assert_eq!(c.eat(), '3');
    assert_eq!(c.eat(), '4');
    assert_eq!(c.eat(), EOF_CHAR);
    assert_eq!(c.eat(), EOF_CHAR);
}

#[test]
fn test_peek() {
    let c = Cursor::new("1234");
    assert_eq!(c.peek(), '1');
    assert_eq!(c.peek(), '1');
    let mut c = c;
    c.eat();
    let c = c;
    assert_eq!(c.peek(), '2');
    assert_eq!(c.peek(), '2');
}

#[test]
fn test_peekn() {
    let c = Cursor::new("1234");
    assert_eq!(c.peekn(0), '1');
    assert_eq!(c.peekn(1), '2');
    let mut c = c;
    c.eat();
    let c = c;
    assert_eq!(c.peekn(1), '3');
    assert_eq!(c.peekn(2), '4');
    assert_eq!(c.peekn(3), EOF_CHAR);
}

#[test]
fn test_peek_end() {
    let mut c = Cursor::new("1234");
    c.eat();
    c.eat();
    c.eat();
    c.eat();
    let c = c;
    assert_eq!(c.peek(), EOF_CHAR);
    assert_eq!(c.peek(), EOF_CHAR);
    let mut c = c;
    c.eat();
    let c = c;
    assert_eq!(c.peek(), EOF_CHAR);
}
