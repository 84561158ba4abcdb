use til_query::complexity::Complexity;
use til_query::directions::PhysicalStreamDirection;
use til_query::element::Element;
use til_query::element_type::ElementType;
use til_query::error::Error;
use til_query::logical_transfer::LogicalTransfer;
use til_query::numbers::Positive;
use til_query::physical_transfer::{LastMode, PhysicalTransfer, StrobeMode};
use til_query::signals::{PhysicalSignals, SignalCall, close_transfer, open_transfer, transfer};
use vstd::seq::Seq;

struct TestSignaller {
    dir: PhysicalStreamDirection,
    result: String,
}

impl TestSignaller {
    fn sink() -> Self {
        TestSignaller { dir: PhysicalStreamDirection::Sink, result: String::new() }
    }

    fn source() -> Self {
        TestSignaller { dir: PhysicalStreamDirection::Source, result: String::new() }
    }

    fn result(&self) -> &str {
        &self.result
    }
}

impl PhysicalSignals for TestSignaller {
    fn calls(&self) -> Seq<(SignalCall, bool)> {
        Seq::empty()
    }

    fn driven(&self) -> PhysicalStreamDirection {
        self.dir
    }

    fn direction(&self) -> PhysicalStreamDirection {
        self.dir
    }

    fn comment(&mut self, comment: &str) {
        self.result.push_str(&format!("// {}\n", comment))
    }

    fn act_data_default(&mut self) -> Result<(), Error> {
        self.result.push_str("act_data_default\n");
        Ok(())
    }

    fn assert_data_default(&mut self, message: &str) -> Result<(), Error> {
        self.result.push_str(&format!("assert_data_default: {}\n", message));
        Ok(())
    }

    fn act_data(&mut self, element_lane: u32, data: &ElementType) -> Result<(), Error> {
        self.result.push_str(&format!("act_data({}, {})\n", element_lane, data.text()));
        Ok(())
    }

    fn assert_data(&mut self, element_lane: u32, data: &ElementType, message: &str) -> Result<(), Error> {
        self.result
            .push_str(&format!("assert_data({}, {}): {}\n", element_lane, data.text(), message));
        Ok(())
    }

    fn act_user_default(&mut self) -> Result<(), Error> {
        self.result.push_str("act_user_default\n");
        Ok(())
    }

    fn assert_user_default(&mut self, message: &str) -> Result<(), Error> {
        self.result.push_str(&format!("assert_user_default: {}\n", message));
        Ok(())
    }

    fn act_user(&mut self, user: &ElementType) -> Result<(), Error> {
        self.result.push_str(&format!("act_user({})\n", user.text()));
        Ok(())
    }

    fn assert_user(&mut self, user: &ElementType, message: &str) -> Result<(), Error> {
        self.result.push_str(&format!("assert_user({}): {}\n", user.text(), message));
        Ok(())
    }

    fn act_stai(&mut self, stai: u32) -> Result<(), Error> {
        self.result.push_str(&format!("act_stai({})\n", stai));
        Ok(())
    }

    fn assert_stai(&mut self, stai: u32, message: &str) -> Result<(), Error> {
        self.result.push_str(&format!("assert_stai({}): {}\n", stai, message));
        Ok(())
    }

    fn act_endi(&mut self, endi: u32) -> Result<(), Error> {
        self.result.push_str(&format!("act_endi({})\n", endi));
        Ok(())
    }

    fn assert_endi(&mut self, endi: u32, message: &str) -> Result<(), Error> {
        self.result.push_str(&format!("assert_endi({}): {}\n", endi, message));
        Ok(())
    }

    fn act_strb(&mut self, strb: StrobeMode) -> Result<(), Error> {
        self.result.push_str(&format!("act_strb({})\n", strb.text()));
        Ok(())
    }

    fn assert_strb(&mut self, strb: StrobeMode, message: &str) -> Result<(), Error> {
        self.result.push_str(&format!("assert_strb({}): {}\n", strb.text(), message));
        Ok(())
    }

    fn act_last(&mut self, last: &LastMode) -> Result<(), Error> {
        self.result.push_str(&format!("act_last({})\n", last.text()));
        Ok(())
    }

    fn assert_last(&mut self, last: &LastMode, message: &str) -> Result<(), Error> {
        self.result.push_str(&format!("assert_last({}): {}\n", last.text(), message));
        Ok(())
    }

    fn handshake(&mut self) -> Result<(), Error> {
        self.result.push_str("handshake\n");
        Ok(())
    }

    fn handshake_continue(&mut self, message: &str) -> Result<(), Error> {
        self.result.push_str(&format!("handshake_continue: {}\n", message));
        Ok(())
    }

    fn handshake_start(&mut self) -> Result<(), Error> {
        self.result.push_str("handshake_start\n");
        Ok(())
    }

    fn handshake_end(&mut self) -> Result<(), Error> {
        self.result.push_str("handshake_end\n");
        Ok(())
    }
}

fn example_transfer() -> Result<PhysicalTransfer, Error> {
    let lanes = vec![
        Element::new_data_from_str("11")?,
        Element::new_inactive(),
        Element::new_data_from_str("11")?,
    ];
    let logical = LogicalTransfer::new(lanes, Some(ElementType::from_str("101")?));
    PhysicalTransfer::new(Complexity::new_major(8), Positive::new(3).unwrap(), 2, 3, 3)
        .with_logical_transfer(logical)
}

#[test]
fn test_transfer() -> Result<(), Error> {
    let physical = example_transfer()?;

    let mut sink = TestSignaller::sink();
    open_transfer(&mut sink)?;
    transfer(&mut sink, &physical, false, "test message")?;
    close_transfer(&mut sink)?;

    assert_eq!(
        r#"handshake_start
// test message
act_data(0, Bits([1, 1]))
// Lane 1 inactive
act_data(2, Bits([1, 1]))
act_last(Lane(None, None, None))
act_strb(Lane("101"))
act_user(Bits([1, 0, 1]))
handshake_continue: test message
handshake_end
"#,
        sink.result()
    );

    let mut source = TestSignaller::source();
    open_transfer(&mut source)?;
    transfer(&mut source, &physical, false, "test message")?;
    close_transfer(&mut source)?;

    assert_eq!(
        r#"handshake_start
// test message
assert_data(0, Bits([1, 1])): test message
// Lane 1 inactive
assert_data(2, Bits([1, 1])): test message
assert_last(Lane(None, None, None)): test message
assert_strb(Lane("101")): test message
assert_user(Bits([1, 0, 1])): test message
handshake
handshake_end
"#,
        source.result()
    );
    Ok(())
}
