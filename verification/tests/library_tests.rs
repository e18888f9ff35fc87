use assembler::assembler::{AssemblyError, AssemblyLine, Assembler};
use assembler::binary_to_hex::{convert_line, hex_encode, HexEncodingError};
use assembler::hash::{hash_chars, JacobHash};
use assembler::hash_map::{is_prime, next_prime, HashMap};
use assembler::linked_list::LinkedList;
use assembler::node::Node;
use assembler::pair::Pair;
use assembler::util::{
    add_parentheses, assembly_str_to_line_vec, count_digits, format_line, is_alias, is_base_addr_register,
    is_immediate_value, is_in_parentheses, is_register, remove_all_whitespace, remove_non_numeric,
    remove_parentheses, split_args, trim_whitespace,
};

fn assemble(code: &str) -> Result<(String, String), AssemblyError> {
    let mut a = Assembler::from_str(code);
    a.as_string()
}

fn machine_code(code: &str) -> String {
    match assemble(code) {
        Ok((mc, _)) => mc,
        Err(e) => panic!("unexpected error: {}", e.message()),
    }
}

fn listing(code: &str) -> String {
    match assemble(code) {
        Ok((_, text)) => text,
        Err(e) => panic!("unexpected error: {}", e.message()),
    }
}

fn error_of(code: &str) -> AssemblyError {
    match assemble(code) {
        Ok((mc, _)) => panic!("expected an error, got {mc}"),
        Err(e) => e,
    }
}

// ---------------------------------------------------------------------------
// Assembling single instructions
// ---------------------------------------------------------------------------

#[test]
fn r_type_instructions() {
    assert_eq!(machine_code("add ra1 ra2 ra3"), "0000000100100011\n");
    assert_eq!(machine_code("and ra4 ra5 ra6"), "0001010001010110\n");
    assert_eq!(machine_code("or ra7 ra8 ra9"), "0010011110001001\n");
    assert_eq!(machine_code("sub ra15 ra0 ra7"), "0011111100000111\n");
}

#[test]
fn i_type_small_immediate() {
    assert_eq!(machine_code("addi ra1 ra2 15"), "1000000100101111\n");
    assert_eq!(machine_code("sll ra3 ra3 4"), "1011001100110100\n");
}

#[test]
fn li_small_immediate() {
    assert_eq!(machine_code("li ra5 200"), "1111010111001000\n");
    assert_eq!(machine_code("li ra0 0"), "1111000000000000\n");
    assert_eq!(machine_code("li ra0 255"), "1111000011111111\n");
}

#[test]
fn jumps() {
    assert_eq!(machine_code("jmpr ra3"), "0110000000000011\n");
    assert_eq!(machine_code("jmpi 100"), "1110000001100100\n");
    assert_eq!(machine_code("jmpi 4095"), "1110111111111111\n");
}

#[test]
fn upper_case_and_comments() {
    let code = "LI RA0 23  ; this works too\n; this is a comment!\n\n   ";
    assert_eq!(machine_code(code), "1111000000010111\n");
    assert_eq!(listing(code), "li ra0 23\n");
}

#[test]
fn program_of_several_lines() {
    let code = "li ra1 3\nli ra2 4\nadd ra3 ra1 ra2\nsw ra3 0 (ra0)";
    assert_eq!(
        machine_code(code),
        "1111000100000011\n1111001000000100\n0000001100010010\n1100001100000000\n"
    );
    assert_eq!(listing(code), "li ra1 3\nli ra2 4\nadd ra3 ra1 ra2\nsw ra3 0 (ra0)\n");
}

// ---------------------------------------------------------------------------
// Pseudo-instructions: large immediates expand into several instructions
// ---------------------------------------------------------------------------

#[test]
fn readme_addi_128() {
    assert_eq!(machine_code("addi ra0 ra1 128"), "1111111010000000\n0000000000011110\n\n");
    assert_eq!(listing("addi ra0 ra1 128"), "li ra14 128\nadd ra0 ra1 ra14\n\n");
}

#[test]
fn readme_addi_256() {
    assert_eq!(
        machine_code("addi ra0 ra1 256"),
        "1111111000000001\n1011111011101000\n0000000000011110\n\n"
    );
    assert_eq!(listing("addi ra0 ra1 256"), "li ra14 1\nsll ra14 ra14 8\nadd ra0 ra1 ra14\n\n");
}

#[test]
fn li_large_immediate() {
    assert_eq!(
        listing("li ra3 300"),
        "li ra14 1\nsll ra14 ra14 4\naddi ra14 ra14 2\nsll ra14 ra14 4\naddi ra14 ra14 12\naddi ra3 ra14 0\n\n"
    );
}

#[test]
fn jmpi_large_address() {
    assert_eq!(
        listing("jmpi 5000"),
        "li ra14 19\nsll ra14 ra14 4\naddi ra14 ra14 8\nsll ra14 ra14 4\naddi ra14 ra14 8\njmpr ra14\n\n"
    );
    assert_eq!(
        machine_code("jmpi 5000"),
        "1111111000010011\n1011111011100100\n1000111011101000\n1011111011100100\n1000111011101000\n0110000000001110\n\n"
    );
}

#[test]
fn mem_large_offset() {
    assert_eq!(listing("lw ra2 20 (ra3)"), "li ra14 20\nadd ra14 ra14 ra3\nlw ra2 0 (ra14)\n\n");
}

// ---------------------------------------------------------------------------
// Aliases
// ---------------------------------------------------------------------------

#[test]
fn aliases_are_substituted() {
    let code = "x = ra3\nadd x x x\ny = 7\naddi x ra0 y\nlw ra1 0 (x)";
    assert_eq!(listing(code), "add ra3 ra3 ra3\naddi ra3 ra0 7\nlw ra1 0 (ra3)\n");
    assert_eq!(machine_code(code), "0000001100110011\n1000001100000111\n1101000100110000\n");
}

#[test]
fn readme_alias_error() {
    let e = error_of("x = 5\nadd ra0 ra0 x");
    assert!(matches!(e, AssemblyError::InvalidArgument(_)));
    assert_eq!(
        e.message(),
        "\nInvalid argument on line 2, position 4:\n\tadd ra0 ra0 5\nExplanation: R-type instructions don't take an immediate value as an argument."
    );
}

#[test]
fn alias_errors() {
    let e = error_of("x = = 5");
    assert!(matches!(e, AssemblyError::AliasError(_)));
    assert_eq!(e.message(), "\nInvalid alias on line 1:\n\tx = = 5\n");

    let e = error_of("x = foo");
    assert!(matches!(e, AssemblyError::AliasError(_)));
    assert_eq!(e.message(), "\nInvalid alias on line 1:\n\tx = foo\nExplanation: Invalid value for the alias");

    let e = error_of("b = 5\n5 = 7\nc = b");
    assert!(matches!(e, AssemblyError::AliasError(_)));
    assert_eq!(e.message(), "\nInvalid alias on line 3:\n\tc = 5\nExplanation: Aliases can't store other aliases");

    let e = error_of("(x) = 5");
    assert!(matches!(e, AssemblyError::AliasError(_)));
    assert_eq!(e.message(), "\nInvalid alias on line 1:\n\t(x) = 5\nExplanation: Aliases can't have parentheses");
}

// ---------------------------------------------------------------------------
// Errors
// ---------------------------------------------------------------------------

#[test]
fn invalid_word() {
    let e = error_of("add ra0 ra1 foo");
    assert!(matches!(e, AssemblyError::InvalidArgument(_)));
    assert_eq!(e.message(), "\nInvalid argument on line 1, position 4:\n\tadd ra0 ra1 foo\n");
}

#[test]
fn first_word_must_be_an_operation() {
    let e = error_of("ra0 ra1");
    assert_eq!(
        e.message(),
        "\nInvalid argument on line 1, position 1:\n\tra0 ra1\nExplanation: The first argument must be an operation."
    );
}

#[test]
fn unknown_form_is_a_syntax_error() {
    let e = error_of("nop\nandi ra0 ra1 ra2");
    assert!(matches!(e, AssemblyError::InvalidArgument(_)));
    let e = error_of("andi ra0 ra1 ra2");
    assert!(matches!(e, AssemblyError::SyntaxError(_)));
    assert_eq!(e.message(), "Syntax error on line 1: \n\tandi ra0 ra1 ra2");
}

#[test]
fn register_out_of_range() {
    let e = error_of("add ra0 ra1 ra16");
    assert_eq!(e.message(), "\nInvalid argument on line 1, position 4:\n\tadd ra0 ra1 ra16\n");
    let e = error_of("lw ra0 1 (ra16)");
    assert_eq!(e.message(), "\nInvalid argument on line 1, position 4:\n\tlw ra0 1 (ra16)\n");
}

#[test]
fn register_without_number() {
    let e = error_of("add ra0 ra1 rab");
    assert_eq!(e.message(), "\nInvalid argument on line 1, position 4:\n\tadd ra0 ra1 rab\n");
    let e = error_of("add ra01 ra1 ra2");
    assert_eq!(e.message(), "\nInvalid argument on line 1, position 2:\n\tadd ra01 ra1 ra2\n");
}

#[test]
fn immediate_above_16_bits() {
    let e = error_of("addi ra0 ra1 70000");
    assert_eq!(
        e.message(),
        "\nInvalid argument on line 1, position 4:\n\taddi ra0 ra1 70000\nExplanation: Immediate value is above the maximum of 65535"
    );
    let e = error_of("li ra0 65536");
    assert_eq!(
        e.message(),
        "\nInvalid argument on line 1, position 3:\n\tli ra0 65536\nExplanation: Immediate value is above the maximum of 65535"
    );
}

#[test]
fn sll_has_no_register_form() {
    let e = error_of("sll ra0 ra1 20");
    assert_eq!(
        e.message(),
        "\nInvalid argument on line 1, position 0:\n\tsll ra0 ra1 20\nExplanation: sll doesn't have a corresponding R-type instruction"
    );
}

#[test]
fn mem_errors() {
    let e = error_of("sw ra0 1 ra1");
    assert_eq!(
        e.message(),
        "\nInvalid argument on line 1, position 4:\n\tsw ra0 1 ra1\nExplanation: Base address register needs parentheses, e.g. (ra0) instead of ra0"
    );
    let e = error_of("jmpr 5");
    assert_eq!(
        e.message(),
        "\nInvalid argument on line 1, position 2:\n\tjmpr 5\nExplanation: This argument must be a register, not an immediate value."
    );
    let e = error_of("jmpi ra1");
    assert_eq!(
        e.message(),
        "\nInvalid argument on line 1, position 2:\n\tjmpi ra1\nExplanation: This argument must be an immediate value, not a register."
    );
}

#[test]
fn immediate_that_is_no_usize_is_an_error() {
    let e = error_of("addi ra0 ra1 -5");
    assert!(matches!(e, AssemblyError::InvalidArgument(_)));
    assert_eq!(
        e.message(),
        "\nInvalid argument on line 1, position 4:\n\taddi ra0 ra1 -5\nExplanation: Error while parsing the argument: invalid digit found in string"
    );
    let e = error_of("li ra0 -1");
    assert_eq!(
        e.message(),
        "\nInvalid argument on line 1, position 3:\n\tli ra0 -1\nExplanation: Error while parsing the argument: invalid digit found in string"
    );
    let e = error_of("sw ra0 -2 (ra1)");
    assert_eq!(
        e.message(),
        "\nInvalid argument on line 1, position 3:\n\tsw ra0 -2 (ra1)\nExplanation: Error while parsing the argument: invalid digit found in string"
    );
    let e = error_of("jmpi 99999999999999999999999");
    assert_eq!(
        e.message(),
        "\nInvalid argument on line 1, position 2:\n\tjmpi 99999999999999999999999\nExplanation: Error while parsing the argument: number too large to fit in target type"
    );
}

#[test]
fn immediate_forms_without_instructions() {
    assert_eq!(listing("andi ra1 ra2 5"), "li ra14 5\nand ra1 ra2 ra14\n\n");
    assert_eq!(machine_code("andi ra1 ra2 5"), "1111111000000101\n0001000100101110\n\n");
    assert_eq!(listing("ori ra0 ra0 0"), "li ra14 0\nor ra0 ra0 ra14\n\n");
    assert_eq!(
        listing("subi ra3 ra3 300"),
        "li ra14 1\nsll ra14 ra14 4\naddi ra14 ra14 2\nsll ra14 ra14 4\naddi ra14 ra14 12\nsub ra3 ra3 ra14\n\n"
    );
    let e = error_of("ori ra0 ra0 70000");
    assert_eq!(
        e.message(),
        "\nInvalid argument on line 1, position 4:\n\tori ra0 ra0 70000\nExplanation: Immediate value is above the maximum of 65535"
    );
}

// ---------------------------------------------------------------------------
// Hex images
// ---------------------------------------------------------------------------

#[test]
fn hex_of_words() {
    assert_eq!(convert_line("1111111010000000").ok().unwrap(), "00fe80");
    assert_eq!(convert_line("0").ok().unwrap(), "000000");
    match convert_line("10201") {
        Err(e) => {
            assert!(matches!(e, HexEncodingError::ParseError(_)));
            assert_eq!(e.message(), "invalid digit found in string\nError encountered on this line:\n\t10201\n");
        }
        Ok(s) => panic!("unexpected {s}"),
    }
}

#[test]
fn hex_image_of_machine_code() {
    let mc = machine_code("addi ra0 ra1 128\njmpr ra3");
    let lines = assembly_str_to_line_vec(&mc);
    assert_eq!(hex_encode(&lines).ok().unwrap(), "v2.0 raw\n00fe80 00001e 006003");
    let empty: Vec<AssemblyLine> = Vec::new();
    assert_eq!(hex_encode(&empty).ok().unwrap(), "v2.0 raw\n");
}

// ---------------------------------------------------------------------------
// Text helpers
// ---------------------------------------------------------------------------

#[test]
fn word_kinds() {
    assert!(is_register("ra0"));
    assert!(is_register("ra15"));
    assert!(!is_register("ra"));
    assert!(!is_register("ra100"));
    assert!(!is_register("x1"));
    assert!(!is_register("rax"));
    assert!(!is_register("ra01"));
    assert!(!is_register("ra16"));
    assert!(!is_register("xra1"));
    assert!(is_register("ra9"));
    assert!(is_register("ra10"));
    assert!(is_in_parentheses("(ra1)"));
    assert!(!is_in_parentheses("ra1)"));
    assert!(is_base_addr_register("(ra1)"));
    assert!(!is_base_addr_register("(x)"));
    assert!(is_immediate_value("42"));
    assert!(is_immediate_value("-42"));
    assert!(!is_immediate_value("-"));
    assert!(!is_immediate_value(""));
    assert!(!is_immediate_value("4a"));
    assert!(is_alias("x = 5"));
    assert!(!is_alias("add ra0 ra0 ra0"));
}

#[test]
fn word_editing() {
    assert_eq!(remove_all_whitespace(" a b\tc\n"), "abc");
    assert_eq!(trim_whitespace("  a b  "), "a b");
    assert_eq!(remove_parentheses("((ra1))"), "ra1");
    assert_eq!(remove_non_numeric("(ra12)"), "12");
    assert_eq!(add_parentheses("ra1"), "(ra1)");
    assert_eq!(count_digits(0), 1);
    assert_eq!(count_digits(15), 2);
    assert_eq!(count_digits(65535), 5);
}

#[test]
fn lines_of_code() {
    let mut n: usize = 7;
    let l = format_line(&mut n, "  ADD RA0 RA1 RA2 ; sum");
    assert_eq!(n, 8);
    assert_eq!(l.num, 7);
    assert_eq!(l.contents, "add ra0 ra1 ra2");
    let v = assembly_str_to_line_vec("li ra0 1\n\n; only a comment\r\n  sub ra1 ra1 ra0  \n");
    assert_eq!(v.len(), 2);
    assert_eq!(v[0].num, 1);
    assert_eq!(v[0].contents, "li ra0 1");
    assert_eq!(v[1].num, 4);
    assert_eq!(v[1].contents, "sub ra1 ra1 ra0");
    let args = split_args(&v[1]);
    assert_eq!(args, vec!["sub".to_string(), "ra1".to_string(), "ra1".to_string(), "ra0".to_string()]);
}

// ---------------------------------------------------------------------------
// The hash map
// ---------------------------------------------------------------------------

#[test]
fn hashes() {
    assert_eq!(hash_chars(13, "a"), 10670);
    assert_eq!("a".jacob_hash(), 10670);
    assert_eq!("ab".jacob_hash(), 1055264);
    assert_eq!(String::from("ab").jacob_hash(), 1055264);
    assert_eq!(7i32.jacob_hash(), 2316820);
}

#[test]
fn primes() {
    assert!(!is_prime(0));
    assert!(!is_prime(1));
    assert!(is_prime(2));
    assert!(is_prime(13));
    assert!(!is_prime(15));
    assert!(is_prime(7919));
    assert_eq!(next_prime(0), 2);
    assert_eq!(next_prime(2), 3);
    assert_eq!(next_prime(13), 17);
    assert_eq!(next_prime(17), 19);
    assert_eq!(next_prime(1000), 1009);
    assert_eq!(next_prime(8630387), 8630417);
}

#[test]
fn map_insert_get_remove() {
    let mut m: HashMap<&str, i32> = HashMap::new();
    assert!(m.is_empty());
    m.insert("one", 1);
    m.insert("two", 2);
    assert_eq!(m.len(), 2);
    assert_eq!(m.get(&"one"), Some(&1));
    assert_eq!(m.get(&"three"), None);
    assert_eq!(*m.get_unchecked(&"two"), 2);
    m.insert("one", 10);
    assert_eq!(m.len(), 2);
    assert_eq!(m.get(&"one"), Some(&10));
    assert!(m.contains_key(&"two"));
    assert_eq!(m.remove(&"two"), Some(2));
    assert_eq!(m.remove(&"two"), None);
    assert!(!m.contains_key(&"two"));
    assert_eq!(m.len(), 1);
    m.clear();
    assert!(m.is_empty());
    assert_eq!(m.get(&"one"), None);
}

#[test]
fn map_remove_keeps_other_keys_of_the_bucket() {
    let mut m: HashMap<i32, i32> = HashMap::with_capacity(1);
    for i in 0..5 {
        m.insert(i, i * 100);
    }
    assert_eq!(m.remove(&2), Some(200));
    for i in [0, 1, 3, 4] {
        assert_eq!(m.get(&i), Some(&(i * 100)));
    }
    assert_eq!(m.len(), 4);
}

#[test]
fn map_grows_and_keeps_pairs() {
    let mut m: HashMap<i32, usize> = HashMap::with_capacity(2);
    for i in 0..200 {
        m.insert(i, (i as usize) * 3);
    }
    assert_eq!(m.len(), 200);
    for i in 0..200 {
        assert_eq!(m.get(&i), Some(&((i as usize) * 3)));
    }
    m.resize();
    assert_eq!(m.len(), 200);
    assert_eq!(m.get(&199), Some(&597));
}

#[test]
fn map_iterators() {
    let mut m: HashMap<String, bool> = HashMap::new();
    m.insert(String::from("a"), true);
    m.insert(String::from("b"), false);
    m.insert(String::from("c"), true);
    let mut it = m.iter();
    let mut seen: Vec<(String, bool)> = Vec::new();
    while let Some(p) = it.next() {
        seen.push((p.key, p.value));
    }
    seen.sort();
    assert_eq!(
        seen,
        vec![(String::from("a"), true), (String::from("b"), false), (String::from("c"), true)]
    );
    let mut keys: Vec<String> = Vec::new();
    let mut k = m.keys();
    while let Some(key) = k.next() {
        keys.push(key);
    }
    keys.sort();
    assert_eq!(keys, vec![String::from("a"), String::from("b"), String::from("c")]);
    let mut count_true = 0;
    let mut vs = m.values();
    while let Some(v) = vs.next() {
        if v {
            count_true += 1;
        }
    }
    assert_eq!(count_true, 2);
}

#[test]
fn pairs() {
    let p = Pair::new("k", 3);
    assert_eq!(p.key, "k");
    assert_eq!(p.value, 3);
    let q = p.clone();
    assert_eq!(q.key, "k");
    assert_eq!(q.value, 3);
}

#[test]
fn list_and_node_clones() {
    let mut l: LinkedList<String> = LinkedList::new();
    l.append(String::from("a"));
    l.append(String::from("b"));
    let c = l.clone();
    l.replace(0, String::from("z"));
    assert_eq!(c.len(), 2);
    assert_eq!(c.peek(), Some(&String::from("a")));
    assert_eq!(c.peek_back(), Some(&String::from("b")));
    assert_eq!(l.peek(), Some(&String::from("z")));
    let n = Node::new(1, Node::new_wrapped(2, None));
    let m = n.clone();
    assert_eq!(m.value, 1);
    assert_eq!(m.peek_next().map(|x| x.value), Some(2));
}

// ---------------------------------------------------------------------------
// The linked list
// ---------------------------------------------------------------------------

#[test]
fn list_add_remove() {
    let mut l: LinkedList<i32> = LinkedList::new();
    assert!(l.is_empty());
    assert_eq!(l.remove(), None);
    l.add(1);
    l.add(2);
    assert_eq!(l.len(), 2);
    assert_eq!(l.peek(), Some(&2));
    assert_eq!(l.peek_back(), Some(&1));
    assert_eq!(l.remove(), Some(2));
    assert_eq!(l.remove(), Some(1));
    assert!(l.is_empty());
}

#[test]
fn list_append_is_a_queue() {
    let mut l: LinkedList<i32> = LinkedList::new();
    for i in 0..5 {
        l.append(i);
    }
    assert_eq!(l.peek_back(), Some(&4));
    for i in 0..5 {
        assert_eq!(l.remove(), Some(i));
    }
    assert_eq!(l.remove(), None);
}

#[test]
fn list_find_replace_iter() {
    let mut l: LinkedList<i32> = LinkedList::new();
    l.append(10);
    l.append(20);
    l.append(30);
    assert_eq!(l.find(&20), Some(1));
    assert_eq!(l.find(&40), None);
    l.replace(1, 25);
    assert_eq!(l.find(&25), Some(1));
    let mut it = l.iter();
    let mut out: Vec<i32> = Vec::new();
    while let Some(v) = it.next() {
        out.push(*v);
    }
    assert_eq!(out, vec![10, 25, 30]);
    l.clear();
    assert_eq!(l.len(), 0);
    assert_eq!(l.peek(), None);
    assert_eq!(l.peek_back(), None);
}

#[test]
fn nodes() {
    let mut n = Node::new(1, Node::new_wrapped(2, None));
    assert_eq!(*n.value(), 1);
    *n.mut_value() = 5;
    assert_eq!(n.value, 5);
    assert_eq!(n.peek_next().map(|x| x.value), Some(2));
    if let Some(next) = n.next_mut() {
        *next.mut_value() = 7;
    }
    assert_eq!(n.peek_next().map(|x| x.value), Some(7));
    let taken = n.take_next();
    assert_eq!(taken.map(|b| b.value), Some(7));
    assert!(n.peek_next().is_none());
    n.set_next(Node::new_wrapped(9, None));
    assert_eq!(n.peek_next().map(|x| x.value), Some(9));
    assert!(n.as_ref().is_some());
    assert!(n.as_mut_node().is_some());
}

#[test]
fn written_forms() {
    let texts = vec![String::from("1"), String::from("2"), String::from("3")];
    assert_eq!(LinkedList::<i32>::build_string(&texts), "Linked List: {1, 2, 3}");
    assert_eq!(LinkedList::<i32>::build_string(&Vec::new()), "Linked List: {}");
    let pairs = vec![String::from("a: 1"), String::from("b: 2")];
    assert_eq!(HashMap::<&str, i32>::build_string(&pairs), "{\n    a: 1\n    b: 2\n}");
    assert_eq!(HashMap::<&str, i32>::build_string(&Vec::new()), "{\n}");
}

/// Runs the lines that load the temporary register, as the CPU would.
fn temporary_register_after(listing_text: &str) -> Option<u64> {
    let mut rat: Option<u64> = None;
    for line in listing_text.lines() {
        let ws: Vec<&str> = line.split_whitespace().collect();
        match ws.as_slice() {
            ["li", "ra14", v] => rat = Some(v.parse().unwrap()),
            ["sll", "ra14", "ra14", k] => rat = rat.map(|r| r << k.parse::<u32>().unwrap()),
            ["addi", "ra14", "ra14", v] => rat = rat.map(|r| r + v.parse::<u64>().unwrap()),
            _ => {}
        }
    }
    rat
}

#[test]
fn expansions_load_the_immediate() {
    for imm in [16u64, 128, 255, 256, 300, 4095, 4096, 5000, 61440, 65535] {
        let text = listing(&format!("addi ra1 ra2 {imm}"));
        assert_eq!(temporary_register_after(&text), Some(imm));
        assert!(text.ends_with("add ra1 ra2 ra14\n\n"));
    }
}

#[test]
fn machine_code_lines_are_instruction_words() {
    let code = "x = ra2\nli x 3000\naddi ra1 x 77\nsw ra1 300 (x)\njmpi 60000\nand ra1 ra2 ra3";
    let mc = machine_code(code);
    for line in mc.lines() {
        assert!(line.is_empty() || (line.len() == 16 && line.chars().all(|c| c == '0' || c == '1')));
        if !line.is_empty() {
            let hex = convert_line(line).ok().unwrap();
            assert_eq!(hex.len(), 6);
            assert_eq!(u32::from_str_radix(&hex, 16).unwrap(), u32::from_str_radix(line, 2).unwrap());
        }
    }
}

#[test]
fn unicode_white_space_and_digits() {
    assert_eq!(remove_all_whitespace("a\u{3000}b\u{A0}c\u{2028}"), "abc");
    assert_eq!(trim_whitespace("\u{205F} x y \u{85}"), "x y");
    assert_eq!(remove_non_numeric("ra\u{661}\u{662}"), "\u{661}\u{662}");
    assert!(!is_register("ra\u{661}"));
    let e = error_of("add ra0 ra1 ra\u{661}");
    assert_eq!(e.message(), "\nInvalid argument on line 1, position 4:\n\tadd ra0 ra1 ra\u{661}\n");
}
