use pointer_chain::{
    read_memory_64, resolve_nested_address, resolve_symbolic_address, ModuleRecord, PendingRead,
    Progress, ReadWidth, ResolveError,
};

fn table() -> Vec<ModuleRecord> {
    vec![ModuleRecord { name: "lib.so".to_string(), base: 0x1000 }]
}

/// Runs a resolution against a memory that holds `memory` and nothing else. Returns the
/// result and the addresses that were asked for, in order.
fn resolve_against(
    expr: &str,
    modules: &Vec<ModuleRecord>,
    memory: &[(u64, u64)],
) -> (Result<u64, ResolveError>, Vec<u64>) {
    let mut asked = Vec::new();
    let mut step = resolve_nested_address(expr, modules);
    loop {
        match step {
            Err(e) => return (Err(e), asked),
            Ok(Progress::Done(address)) => return (Ok(address), asked),
            Ok(Progress::NeedsRead(pending)) => {
                let address = pending.address();
                asked.push(address);
                let answer = match memory.iter().find(|entry| entry.0 == address) {
                    Some(entry) => Ok(entry.1.to_le_bytes()),
                    None => Err("unmapped".to_string()),
                };
                match read_memory_64(address, answer) {
                    Ok(value) => step = pending.resume(value, modules),
                    Err(e) => return (Err(e), asked),
                }
            }
        }
    }
}

fn needs_read(step: Result<Progress, ResolveError>) -> PendingRead {
    match step {
        Ok(Progress::NeedsRead(pending)) => pending,
        other => panic!("expected a pending read, got {:?}", other),
    }
}

fn done(step: Result<Progress, ResolveError>) -> u64 {
    match step {
        Ok(Progress::Done(address)) => address,
        other => panic!("expected an address, got {:?}", other),
    }
}

#[test]
fn flat_expression_needs_no_read() {
    let (result, asked) = resolve_against("lib.so+0x10", &table(), &[]);
    assert_eq!(result, Ok(0x1010));
    assert!(asked.is_empty());
}

#[test]
fn single_group_resolves_to_the_value_read() {
    let (result, asked) = resolve_against("[lib.so+0x10]", &table(), &[(0x1010, 0xabcdef)]);
    assert_eq!(result, Ok(0xabcdef));
    assert_eq!(asked, vec![0x1010]);
}

#[test]
fn single_group_step_by_step() {
    let modules = table();
    let pending = needs_read(resolve_nested_address("[lib.so+0x10]", &modules));
    assert_eq!(pending.address(), 0x1010);
    assert_eq!(pending.depth(), 0);
    assert_eq!(done(pending.resume(0x7fff_0000_1234, &modules)), 0x7fff_0000_1234);
}

#[test]
fn text_before_a_group_is_kept() {
    let memory = [(0x10, 0x2000)];
    let (nested, asked) = resolve_against("lib.so+[0x10]", &table(), &memory);
    let (flat, _) = resolve_against("lib.so+0x2000", &table(), &[]);
    assert_eq!(nested, Ok(0x3000));
    assert_eq!(nested, flat);
    assert_eq!(asked, vec![0x10]);
    let pending = needs_read(resolve_nested_address("lib.so+[0x10]", &table()));
    assert_eq!(pending.depth(), 1);
}

#[test]
fn double_nesting() {
    let memory = [(0x1010, 0x2000), (0x2020, 0x3000)];
    let (result, asked) = resolve_against("[[lib.so+0x10]+0x20]", &table(), &memory);
    assert_eq!(result, Ok(0x3000));
    assert_eq!(asked, vec![0x1010, 0x2020]);
}

#[test]
fn groups_side_by_side_and_text_after_them() {
    let memory = [(0x8, 0x100), (0x10, 0x20)];
    let (result, asked) = resolve_against("lib.so+[8]+[10]-0x4", &table(), &memory);
    assert_eq!(result, Ok(0x1000 + 0x100 + 0x20 - 0x4));
    assert_eq!(asked, vec![0x8, 0x10]);
}

#[test]
fn group_after_a_minus_is_subtracted() {
    let memory = [(0x8, 0x100)];
    let (result, _) = resolve_against("lib.so-[8]", &table(), &memory);
    assert_eq!(result, Ok(0xf00));
}

#[test]
fn value_is_written_in_upper_case_without_leading_zeros() {
    let modules = vec![
        ModuleRecord { name: "0xAB".to_string(), base: 0x5000 },
        ModuleRecord { name: "0x0".to_string(), base: 0x6000 },
    ];
    let (result, _) = resolve_against("[8]", &modules, &[(0x8, 0xab)]);
    assert_eq!(result, Ok(0x5000));
    let (result, _) = resolve_against("[8]", &modules, &[(0x8, 0)]);
    assert_eq!(result, Ok(0x6000));
    let (result, _) = resolve_against("[8]", &modules, &[(0x8, 0xabc)]);
    assert_eq!(result, Ok(0xabc));
}

#[test]
fn largest_value_round_trips() {
    let memory = [(0x8, u64::MAX)];
    let (result, _) = resolve_against("[8]", &table(), &memory);
    assert_eq!(result, Ok(u64::MAX));
    let (result, _) = resolve_against("[8]+2", &table(), &memory);
    assert_eq!(result, Ok(1));
}

#[test]
fn empty_expression_resolves_to_zero_without_a_read() {
    let (result, asked) = resolve_against("", &table(), &[]);
    assert_eq!(result, Ok(0));
    assert!(asked.is_empty());
}

#[test]
fn closing_bracket_at_the_start_asks_for_no_read() {
    let (result, asked) = resolve_against("]", &table(), &[]);
    assert_eq!(result, Ok(0));
    assert!(asked.is_empty());
}

#[test]
fn empty_group_asks_for_address_zero() {
    // The opening bracket leaves its mark, so the group is evaluated, to zero, and read.
    let pending = needs_read(resolve_nested_address("[]", &table()));
    assert_eq!(pending.address(), 0);
    let (result, asked) = resolve_against("[]", &table(), &[(0, 0x44)]);
    assert_eq!(result, Ok(0x44));
    assert_eq!(asked, vec![0]);
}

#[test]
fn failed_read_fails_the_resolution() {
    let (result, asked) = resolve_against("[[lib.so+0x10]+0x20]", &table(), &[(0x1010, 0x2000)]);
    assert_eq!(
        result,
        Err(ResolveError::MemoryRead {
            address: 0x2020,
            width: ReadWidth::Eight,
            cause: "unmapped".to_string(),
        })
    );
    assert_eq!(asked, vec![0x1010, 0x2020]);
}

#[test]
fn invalid_operand_in_a_group_fails_before_any_read() {
    let (result, asked) = resolve_against("lib.so+[nothing]", &table(), &[]);
    assert_eq!(result, Err(ResolveError::InvalidOperand { text: "nothing".to_string() }));
    assert!(asked.is_empty());
}

#[test]
fn invalid_operand_after_a_group_fails_after_the_read() {
    let (result, asked) = resolve_against("[8]+nothing", &table(), &[(0x8, 0x100)]);
    assert_eq!(result, Err(ResolveError::InvalidOperand { text: "nothing".to_string() }));
    assert_eq!(asked, vec![0x8]);
}

#[test]
fn unbalanced_brackets_are_not_refused() {
    let (result, asked) = resolve_against("[lib.so+0x10", &table(), &[]);
    assert_eq!(result, Ok(0x1010));
    assert!(asked.is_empty());
    let (result, asked) = resolve_against("8]]", &table(), &[(0x8, 0x100), (0x100, 0x200)]);
    assert_eq!(result, Ok(0x200));
    assert_eq!(asked, vec![0x8, 0x100]);
}

#[test]
fn depth_stays_within_the_open_brackets() {
    let modules = table();
    let pending = needs_read(resolve_nested_address("1+[2+[3+[4]]]", &modules));
    assert_eq!(pending.address(), 4);
    assert_eq!(pending.depth(), 3);
    let pending = needs_read(pending.resume(0x10, &modules));
    assert_eq!(pending.address(), 0x13);
    assert_eq!(pending.depth(), 2);
    let pending = needs_read(pending.resume(0x20, &modules));
    assert_eq!(pending.address(), 0x22);
    assert_eq!(pending.depth(), 1);
    assert_eq!(done(pending.resume(0x30, &modules)), 0x31);
}

#[test]
fn interleaved_resolutions_do_not_disturb_each_other() {
    let modules = table();
    let expressions = ["[[lib.so+0x10]+0x20]", "lib.so+[8]+[10]", "[8]-1", "[[[1]]]"];
    let memory =
        [(0x1010, 0x2000), (0x2020, 0x3000), (0x8, 0x100), (0x10, 0x20), (0x1, 0x8), (0x100, 0x100)];
    let alone: Vec<Result<u64, ResolveError>> =
        expressions.iter().map(|e| resolve_against(e, &modules, &memory).0).collect();
    let mut steps: Vec<Option<Result<Progress, ResolveError>>> =
        expressions.iter().map(|e| Some(resolve_nested_address(e, &modules))).collect();
    let mut results: Vec<Option<Result<u64, ResolveError>>> = vec![None, None, None, None];
    let mut open = expressions.len();
    while open > 0 {
        for i in 0..expressions.len() {
            match steps[i].take() {
                None => {}
                Some(Err(e)) => {
                    results[i] = Some(Err(e));
                    open -= 1;
                }
                Some(Ok(Progress::Done(address))) => {
                    results[i] = Some(Ok(address));
                    open -= 1;
                }
                Some(Ok(Progress::NeedsRead(pending))) => {
                    let address = pending.address();
                    let value = memory.iter().find(|entry| entry.0 == address).unwrap().1;
                    steps[i] = Some(pending.resume(value, &modules));
                }
            }
        }
    }
    for i in 0..expressions.len() {
        assert_eq!(results[i], Some(alone[i].clone()));
    }
    assert_eq!(alone, vec![Ok(0x3000), Ok(0x1120), Ok(0xff), Ok(0x100)]);
}

#[test]
fn resolved_address_is_narrowed_to_the_pointer_width() {
    assert_eq!(resolve_symbolic_address(Ok(0x1234)), Ok(0x1234usize));
    assert_eq!(
        resolve_symbolic_address(Ok(0x1_2345_6789_abcd)),
        Ok(0x1_2345_6789_abcdu64 as usize)
    );
    assert_eq!(resolve_symbolic_address(Ok(u64::MAX)), Ok(usize::MAX));
}

#[test]
fn failure_is_handed_on_as_it_is() {
    let failure = ResolveError::InvalidOperand { text: "zz".to_string() };
    assert_eq!(resolve_symbolic_address(Err(failure.clone())), Err(failure));
}
