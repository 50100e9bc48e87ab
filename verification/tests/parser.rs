use bytetape::{Error, Operation, Program};

fn operations(program: &Program) -> Vec<Operation> {
    let mut all = Vec::new();
    for i in 0..program.len() {
        all.push(program.operation(i));
    }
    all
}

fn jumps(program: &Program) -> Vec<usize> {
    let mut all = Vec::new();
    for i in 0..program.len() {
        all.push(program.jump(i));
    }
    all
}

#[test]
fn each_symbol_denotes_its_instruction() {
    assert_eq!(Operation::from_char('>'), Some(Operation::IncrementDataPointer));
    assert_eq!(Operation::from_char('<'), Some(Operation::DecrementDataPointer));
    assert_eq!(Operation::from_char('+'), Some(Operation::IncrementCellValue));
    assert_eq!(Operation::from_char('-'), Some(Operation::DecrementCellValue));
    assert_eq!(Operation::from_char('.'), Some(Operation::OutputCell));
    assert_eq!(Operation::from_char(','), Some(Operation::InputCell));
    assert_eq!(Operation::from_char('['), Some(Operation::OpenLoop));
    assert_eq!(Operation::from_char(']'), Some(Operation::CloseLoop));
}

#[test]
fn other_characters_denote_nothing() {
    for c in ['a', ' ', '\n', '(', ')', '4', '{', '}', '\u{e9}', '\u{1F600}', '\0'] {
        assert_eq!(Operation::from_char(c), None);
    }
}

#[test]
fn parse_keeps_the_order_of_the_symbols() {
    let program = Program::parse("><+-.,[]").unwrap();
    assert_eq!(
        operations(&program),
        vec![
            Operation::IncrementDataPointer,
            Operation::DecrementDataPointer,
            Operation::IncrementCellValue,
            Operation::DecrementCellValue,
            Operation::OutputCell,
            Operation::InputCell,
            Operation::OpenLoop,
            Operation::CloseLoop,
        ]
    );
    assert_eq!(jumps(&program), vec![0, 1, 2, 3, 4, 5, 7, 6]);
}

#[test]
fn parse_of_empty_text_is_the_empty_program() {
    let program = Program::parse("").unwrap();
    assert_eq!(program.len(), 0);
}

#[test]
fn parse_of_commentary_alone_is_the_empty_program() {
    let program = Program::parse("no instruction here (4 digits)\n").unwrap();
    assert_eq!(program.len(), 0);
}

#[test]
fn commentary_takes_no_position() {
    let program = Program::parse("add + one, then\n loop [ down - ] \u{e9}").unwrap();
    assert_eq!(
        operations(&program),
        vec![
            Operation::IncrementCellValue,
            Operation::InputCell,
            Operation::OpenLoop,
            Operation::DecrementCellValue,
            Operation::CloseLoop,
        ]
    );
    assert_eq!(jumps(&program), vec![0, 1, 4, 3, 2]);
}

#[test]
fn nested_loops_are_linked_pairwise() {
    //                            0123456789
    let program = Program::parse("+[>[-]<[]]").unwrap();
    assert_eq!(jumps(&program), vec![0, 9, 2, 5, 4, 3, 6, 8, 7, 1]);
}

#[test]
fn loops_in_a_row_are_linked_pairwise() {
    let program = Program::parse("[][[]][]").unwrap();
    assert_eq!(jumps(&program), vec![1, 0, 5, 4, 3, 2, 7, 6]);
}

#[test]
fn every_open_and_close_point_at_each_other() {
    let program = Program::parse("+[[-]>[>[+]<-]<[[]]]-[.]").unwrap();
    for i in 0..program.len() {
        let target = program.jump(i);
        match program.operation(i) {
            Operation::OpenLoop => {
                assert!(i < target);
                assert_eq!(program.operation(target), Operation::CloseLoop);
                assert_eq!(program.jump(target), i);
            }
            Operation::CloseLoop => {
                assert!(target < i);
                assert_eq!(program.operation(target), Operation::OpenLoop);
                assert_eq!(program.jump(target), i);
            }
            _ => assert_eq!(target, i),
        }
    }
}

#[test]
fn close_without_open_is_rejected() {
    assert_eq!(Program::parse("]").err(), Some(Error::MalformedProgram));
    assert_eq!(Program::parse("+]+").err(), Some(Error::MalformedProgram));
    assert_eq!(Program::parse("[]]").err(), Some(Error::MalformedProgram));
}

#[test]
fn close_before_open_is_rejected() {
    assert_eq!(Program::parse("][").err(), Some(Error::MalformedProgram));
    assert_eq!(Program::parse("[]][").err(), Some(Error::MalformedProgram));
}

#[test]
fn open_without_close_is_rejected() {
    assert_eq!(Program::parse("[").err(), Some(Error::MalformedProgram));
    assert_eq!(Program::parse("[[]").err(), Some(Error::MalformedProgram));
    assert_eq!(Program::parse("[]+[-").err(), Some(Error::MalformedProgram));
}

#[test]
fn brackets_in_commentary_shape_count_too() {
    assert_eq!(Program::parse("see [1").err(), Some(Error::MalformedProgram));
    assert!(Program::parse("see [1]").is_ok());
}
