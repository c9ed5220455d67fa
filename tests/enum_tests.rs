use type2network::error::Error;
use type2network::ToNetworkOrder;

#[test]
#[allow(dead_code)]
fn enum_tests_enum_simple() {
    #[derive(Copy, Clone)]
    enum Bool {
        True,
        False,
    }

    // a unit-only union is written as its discriminant
    impl ToNetworkOrder for Bool {
        fn serialize_to(&self, buffer: &mut Vec<u8>) -> Result<usize, Error> {
            (*self as u8).serialize_to(buffer)
        }
    }
}

#[test]
#[allow(dead_code)]
fn enum_tests_enum_message() {
    enum Message {
        Quit,
        Move { x: i32, y: i32 },
        Write(String),
        ChangeColor(i32, i32, i32),
    }

    impl ToNetworkOrder for Message {
        fn serialize_to(&self, buffer: &mut Vec<u8>) -> Result<usize, Error> {
            match self {
                Message::Quit => Ok(0),
                Message::Move { x, y } => {
                    let mut length = x.serialize_to(buffer)?;
                    length += y.serialize_to(buffer)?;
                    Ok(length)
                }
                Message::Write(s) => s.serialize_to(buffer),
                Message::ChangeColor(a, b, c) => {
                    let mut length = a.serialize_to(buffer)?;
                    length += b.serialize_to(buffer)?;
                    length += c.serialize_to(buffer)?;
                    Ok(length)
                }
            }
        }
    }
}
