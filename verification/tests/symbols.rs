use deet::symbols::{Frame, Function, Line, SymbolTable};

fn function(file: &str, name: &str, address: u64, text_length: u64) -> Function {
    Function { file: file.to_string(), name: name.to_string(), address, text_length }
}

fn line(file: &str, number: usize, address: u64) -> Line {
    Line { file: file.to_string(), number, address }
}

fn table() -> SymbolTable {
    SymbolTable::new(
        vec![
            function("a.c", "main", 0x1000, 0x20),
            function("a.c", "helper", 0x1020, 0x10),
            function("b.c", "helper", 0x2000, 0x10),
            function("b.c", "empty", 0x2010, 0),
            function("b.c", "overlap", 0x1010, 0x20),
        ],
        vec![
            line("a.c", 5, 0x1000),
            line("a.c", 6, 0x1008),
            line("a.c", 9, 0x1020),
            line("a.c", 7, 0x1010),
            line("b.c", 3, 0x2000),
            line("b.c", 4, 0x2000),
            line("b.c", 8, 0x2008),
        ],
    )
}

#[test]
fn an_address_belongs_to_the_first_function_that_holds_it() {
    let t = table();
    assert_eq!(t.get_function_from_addr(0x1000), Some("main".to_string()));
    assert_eq!(t.get_function_from_addr(0x101f), Some("main".to_string()));
    assert_eq!(t.get_function_from_addr(0x1020), Some("helper".to_string()));
    assert_eq!(t.get_function_from_addr(0x102f), Some("helper".to_string()));
    assert_eq!(t.get_function_from_addr(0x1030), None);
    assert_eq!(t.get_function_from_addr(0xfff), None);
    assert_eq!(t.get_function_from_addr(0x2010), None);
    assert_eq!(t.get_function_from_addr(u64::MAX), None);
}

#[test]
fn a_function_at_the_top_of_memory_holds_its_addresses() {
    let t = SymbolTable::new(vec![function("a.c", "top", u64::MAX - 3, 16)], vec![]);
    assert_eq!(t.get_function_from_addr(u64::MAX), Some("top".to_string()));
    assert_eq!(t.get_function_from_addr(u64::MAX - 4), None);
}

#[test]
fn an_address_belongs_to_the_last_line_that_starts_at_or_before_it() {
    let t = table();
    assert_eq!(t.get_line_from_addr(0x1000), Some(line("a.c", 5, 0x1000)));
    assert_eq!(t.get_line_from_addr(0x1007), Some(line("a.c", 5, 0x1000)));
    assert_eq!(t.get_line_from_addr(0x1008), Some(line("a.c", 6, 0x1008)));
    assert_eq!(t.get_line_from_addr(0x1015), Some(line("a.c", 7, 0x1010)));
    assert_eq!(t.get_line_from_addr(0x1fff), Some(line("a.c", 9, 0x1020)));
    assert_eq!(t.get_line_from_addr(0x2003), Some(line("b.c", 3, 0x2000)));
    assert_eq!(t.get_line_from_addr(u64::MAX), Some(line("b.c", 8, 0x2008)));
    assert_eq!(t.get_line_from_addr(0xfff), None);
}

#[test]
fn a_place_needs_both_a_function_and_a_line() {
    let t = table();
    assert_eq!(
        t.get_frame_from_addr(0x1009),
        Some(Frame { function: "main".to_string(), file: "a.c".to_string(), line: 6 })
    );
    assert_eq!(t.get_frame_from_addr(0x1030), None);
    assert_eq!(t.get_frame_from_addr(0x10), None);
    let bare = SymbolTable::new(vec![function("a.c", "main", 0x1000, 0x20)], vec![]);
    assert_eq!(bare.get_frame_from_addr(0x1000), None);
}

#[test]
fn a_line_number_names_the_first_line_from_it_on() {
    let t = table();
    assert_eq!(t.get_addr_for_line("a.c", 5), Some(0x1000));
    assert_eq!(t.get_addr_for_line("a.c", 6), Some(0x1008));
    assert_eq!(t.get_addr_for_line("a.c", 7), Some(0x1020));
    assert_eq!(t.get_addr_for_line("a.c", 0), Some(0x1000));
    assert_eq!(t.get_addr_for_line("a.c", 10), None);
    assert_eq!(t.get_addr_for_line("b.c", 5), Some(0x2008));
    assert_eq!(t.get_addr_for_line("c.c", 1), None);
    assert_eq!(t.get_addr_for_line("", 1), None);
}

#[test]
fn a_function_is_found_by_its_file_and_name() {
    let t = table();
    assert_eq!(t.get_addr_for_function("a.c", "main"), Some(0x1000));
    assert_eq!(t.get_addr_for_function("a.c", "helper"), Some(0x1020));
    assert_eq!(t.get_addr_for_function("b.c", "helper"), Some(0x2000));
    assert_eq!(t.get_addr_for_function("b.c", "main"), None);
    assert_eq!(t.get_addr_for_function("a.c", "help"), None);
    assert_eq!(t.get_addr_for_function("a.c", ""), None);
}
