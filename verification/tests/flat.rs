use pointer_chain::{resolve_single_level_address, ModuleRecord, ResolveError};

fn module(name: &str, base: u64) -> ModuleRecord {
    ModuleRecord { name: name.to_string(), base }
}

fn table() -> Vec<ModuleRecord> {
    vec![
        module("lib.so", 0x1000),
        module("game-core", 0x7f00_0000_0000),
        module("libc.so.6", 0x5000),
        module("LIB.SO", 0x9999),
    ]
}

fn invalid(text: &str) -> Result<u64, ResolveError> {
    Err(ResolveError::InvalidOperand { text: text.to_string() })
}

#[test]
fn module_name_resolves_to_its_base() {
    assert_eq!(resolve_single_level_address("lib.so", &table()), Ok(0x1000));
    assert_eq!(resolve_single_level_address("game-core", &table()), Ok(0x7f00_0000_0000));
    assert_eq!(resolve_single_level_address("libc.so.6", &table()), Ok(0x5000));
}

#[test]
fn module_name_matches_in_any_ascii_case() {
    assert_eq!(resolve_single_level_address("LIB.So", &table()), Ok(0x1000));
    assert_eq!(resolve_single_level_address("Game-CORE", &table()), Ok(0x7f00_0000_0000));
}

#[test]
fn first_module_of_a_name_wins() {
    assert_eq!(resolve_single_level_address("LIB.SO", &table()), Ok(0x1000));
    let reversed = vec![module("LIB.SO", 0x9999), module("lib.so", 0x1000)];
    assert_eq!(resolve_single_level_address("lib.so", &reversed), Ok(0x9999));
}

#[test]
fn non_ascii_letters_match_only_themselves() {
    let modules = vec![module("m\u{f3}dulo", 0x40), module("\u{c9}t\u{e9}", 0x50)];
    assert_eq!(resolve_single_level_address("M\u{f3}DULO", &modules), Ok(0x40));
    assert_eq!(resolve_single_level_address("\u{c9}T\u{e9}", &modules), Ok(0x50));
    assert_eq!(
        resolve_single_level_address("\u{e9}t\u{e9}", &modules),
        invalid("\u{e9}t\u{e9}")
    );
}

#[test]
fn digits_are_read_in_base_sixteen() {
    assert_eq!(resolve_single_level_address("10", &table()), Ok(0x10));
    assert_eq!(resolve_single_level_address("0x10", &table()), Ok(0x10));
    assert_eq!(resolve_single_level_address("ff", &table()), Ok(0xff));
    assert_eq!(resolve_single_level_address("0xDeadBeef", &table()), Ok(0xdead_beef));
    assert_eq!(resolve_single_level_address("0000000000000000000012", &table()), Ok(0x12));
    assert_eq!(
        resolve_single_level_address("ffffffffffffffff", &table()),
        Ok(0xffff_ffff_ffff_ffff)
    );
}

#[test]
fn module_name_wins_over_number() {
    let modules = vec![module("10", 0x77), module("0xab", 0x88)];
    assert_eq!(resolve_single_level_address("10", &modules), Ok(0x77));
    assert_eq!(resolve_single_level_address("0xAB", &modules), Ok(0x88));
    assert_eq!(resolve_single_level_address("0x10", &modules), Ok(0x10));
}

#[test]
fn number_beyond_64_bits_is_invalid() {
    assert_eq!(
        resolve_single_level_address("10000000000000000", &table()),
        invalid("10000000000000000")
    );
    assert_eq!(
        resolve_single_level_address("0x1ffffffffffffffff", &table()),
        invalid("0x1ffffffffffffffff")
    );
}

#[test]
fn only_one_radix_prefix_is_stripped() {
    assert_eq!(resolve_single_level_address("0x", &table()), invalid("0x"));
    assert_eq!(resolve_single_level_address("0x0x10", &table()), invalid("0x0x10"));
    assert_eq!(resolve_single_level_address("0X10", &table()), invalid("0X10"));
}

#[test]
fn sum_and_difference_of_two_terms() {
    assert_eq!(resolve_single_level_address("lib.so+0x10", &table()), Ok(0x1010));
    assert_eq!(resolve_single_level_address("lib.so-0x10", &table()), Ok(0xff0));
    assert_eq!(resolve_single_level_address("10+20", &table()), Ok(0x30));
    assert_eq!(resolve_single_level_address("lib.so + 0x10", &table()), Ok(0x1010));
    assert_eq!(resolve_single_level_address("lib.so-\t0x10", &table()), Ok(0xff0));
    assert_eq!(resolve_single_level_address("lib.so -\t0x10", &table()), invalid("-"));
}

#[test]
fn arithmetic_wraps_modulo_two_to_the_64() {
    assert_eq!(resolve_single_level_address("ffffffffffffffff+1", &table()), Ok(0));
    assert_eq!(resolve_single_level_address("ffffffffffffffff+ffffffffffffffff", &table()),
        Ok(0xffff_ffff_ffff_fffe));
    assert_eq!(
        resolve_single_level_address("lib.so-0x1001", &table()),
        Ok(0xffff_ffff_ffff_ffff)
    );
}

#[test]
fn operands_are_taken_from_left_to_right() {
    assert_eq!(
        resolve_single_level_address("lib.so+0x10+libc.so.6-0x8+1", &table()),
        Ok(0x1000 + 0x10 + 0x5000 - 0x8 + 1)
    );
}

#[test]
fn sign_of_the_first_operand_is_not_applied() {
    assert_eq!(resolve_single_level_address("-10", &table()), Ok(0x10));
    assert_eq!(resolve_single_level_address("+10", &table()), Ok(0x10));
    assert_eq!(resolve_single_level_address("- 10+1", &table()), Ok(0x11));
}

#[test]
fn operand_without_sign_is_added() {
    assert_eq!(resolve_single_level_address("10 20", &table()), Ok(0x30));
    assert_eq!(resolve_single_level_address("10*20", &table()), Ok(0x30));
    assert_eq!(resolve_single_level_address("10+*20", &table()), Ok(0x30));
}

#[test]
fn hyphen_after_a_head_belongs_to_the_operand() {
    assert_eq!(resolve_single_level_address("10-5", &table()), invalid("10-5"));
    assert_eq!(resolve_single_level_address("10 -5", &table()), invalid("-5"));
    assert_eq!(resolve_single_level_address("10 - 5", &table()), invalid("-"));
    assert_eq!(resolve_single_level_address("10- 5", &table()), invalid("10-"));
    assert_eq!(resolve_single_level_address("game-core-8", &table()), invalid("game-core-8"));
}

#[test]
fn dots_join_word_parts_only() {
    assert_eq!(resolve_single_level_address("10.20", &table()), invalid("10.20"));
    assert_eq!(resolve_single_level_address("10..20", &table()), Ok(0x30));
    assert_eq!(resolve_single_level_address("10.", &table()), Ok(0x10));
    assert_eq!(resolve_single_level_address("lib.so.", &table()), Ok(0x1000));
    assert_eq!(resolve_single_level_address("lib.so-a.b-c", &table()), invalid("a.b"));
}

#[test]
fn expression_without_operands_resolves_to_zero() {
    assert_eq!(resolve_single_level_address("", &table()), Ok(0));
    assert_eq!(resolve_single_level_address("  \t ", &table()), Ok(0));
    assert_eq!(resolve_single_level_address("[]", &table()), Ok(0));
    assert_eq!(resolve_single_level_address("+", &table()), Ok(0));
    assert_eq!(resolve_single_level_address("+ *", &table()), Ok(0));
}

#[test]
fn brackets_and_other_characters_are_skipped() {
    assert_eq!(resolve_single_level_address("[0x2000]+0x20", &table()), Ok(0x2020));
    assert_eq!(resolve_single_level_address("[lib.so+0x10", &table()), Ok(0x1010));
    assert_eq!(resolve_single_level_address("0x3000]", &table()), Ok(0x3000));
    assert_eq!(resolve_single_level_address("(10)", &table()), Ok(0x10));
}

#[test]
fn first_invalid_operand_is_reported() {
    assert_eq!(resolve_single_level_address("lib.so+nothing", &table()), invalid("nothing"));
    assert_eq!(resolve_single_level_address("zz+yy", &table()), invalid("zz"));
    assert_eq!(resolve_single_level_address("10+yy+zz", &table()), invalid("yy"));
    assert_eq!(resolve_single_level_address("-", &table()), invalid("-"));
}

#[test]
fn unicode_word_characters_belong_to_operands() {
    // U+0663 is a decimal digit, U+200D a join control, U+0301 a combining mark.
    assert_eq!(resolve_single_level_address("1\u{663}", &table()), invalid("1\u{663}"));
    assert_eq!(resolve_single_level_address("a\u{200d}b", &table()), invalid("a\u{200d}b"));
    assert_eq!(resolve_single_level_address("e\u{301}", &table()), invalid("e\u{301}"));
    let modules = vec![module("caf\u{e9}.so", 0x600)];
    assert_eq!(resolve_single_level_address("caf\u{e9}.so+1", &modules), Ok(0x601));
}

#[test]
fn characters_outside_every_class_separate_operands() {
    // U+20AC, the euro sign, is no word character.
    assert_eq!(resolve_single_level_address("10\u{20ac}20", &table()), Ok(0x30));
    assert_eq!(resolve_single_level_address("10\u{20ac}-20", &table()), Ok(0xffff_ffff_ffff_fff0));
}

#[test]
fn unicode_white_space_may_follow_a_sign() {
    assert_eq!(resolve_single_level_address("lib.so-\u{a0}\u{2003}0x10", &table()), Ok(0xff0));
    assert_eq!(resolve_single_level_address("lib.so+\u{3000}1", &table()), Ok(0x1001));
    // U+200B, the zero width space, is no white space.
    assert_eq!(resolve_single_level_address("lib.so-\u{200b}0x10", &table()), invalid("-"));
}

#[test]
fn same_call_gives_same_result() {
    let modules = table();
    let first = resolve_single_level_address("lib.so+0x10-zz", &modules);
    let second = resolve_single_level_address("lib.so+0x10-zz", &modules);
    assert_eq!(first, second);
}
