use decster::mode::{Mode, ParseModeError};

#[test]
fn from_int() {
    let ints = [(-1, false), (0, true), (0o777, true), (0o1000, false)];
    for (int, is_ok) in ints {
        let result = if is_ok {
            Ok(Mode::try_from(int).unwrap())
        } else {
            Err(ParseModeError::IntegerOutOfRange)
        };
        assert_eq!(Mode::try_from(int), result)
    }
}

fn invalid_char(char: char, index: usize) -> ParseModeError {
    ParseModeError::InvalidChar { char, index }
}

#[test]
fn mode_parse() {
    let strings = [
        ("---------", Ok(0b000000000)),
        ("r--------", Ok(0b100000000)),
        ("-w-------", Ok(0b010000000)),
        ("--x------", Ok(0b001000000)),
        ("---r-----", Ok(0b000100000)),
        ("----w----", Ok(0b000010000)),
        ("-----x---", Ok(0b000001000)),
        ("------r--", Ok(0b000000100)),
        ("-------w-", Ok(0b000000010)),
        ("--------x", Ok(0b000000001)),
        ("r--r--r--", Ok(0b100100100)),
        ("-w--w--w-", Ok(0b010010010)),
        ("--x--x--x", Ok(0b001001001)),
        ("rwx------", Ok(0b111000000)),
        ("---rwx---", Ok(0b000111000)),
        ("------rwx", Ok(0b000000111)),
        ("rwxrwxrwx", Ok(0b111111111)),
        ("        ", Err(ParseModeError::InvalidLength)),
        ("          ", Err(ParseModeError::InvalidLength)),
        ("         ", Err(invalid_char(' ', 0))),
        (" --------", Err(invalid_char(' ', 0))),
        ("--r------", Err(invalid_char('r', 2))),
        ("w--------", Err(invalid_char('w', 0))),
        ("-x-------", Err(invalid_char('x', 1))),
    ];
    for (s, result) in strings {
        match result {
            Ok(bits) => assert_eq!(Mode::from_str(&s).unwrap(), Mode::try_from(bits).unwrap()),
            Err(err) => assert_eq!(Mode::from_str(&s), Err(err)),
        }
    }
}

#[test]
fn mode_bits_values() {
    assert_eq!(Mode::from_str("rw-r--r--").unwrap().as_bits(), 0o644);
    assert_eq!(Mode::from_str("rwxr-xr-x").unwrap().as_bits(), 0o755);
    assert_eq!(Mode::try_from(0o600).unwrap().as_bits(), 0o600);
}

#[test]
fn mode_parse_char() {
    assert_eq!(Mode::parse_char(0, 'r'), Ok(true));
    assert_eq!(Mode::parse_char(1, '-'), Ok(false));
    assert_eq!(Mode::parse_char(2, 'w'), Err(invalid_char('w', 2)));
}

#[test]
fn mode_multibyte_is_invalid_length() {
    assert_eq!(Mode::from_str("rwxrwxrw\u{e9}"), Err(ParseModeError::InvalidLength));
}
