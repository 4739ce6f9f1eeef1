use pointer_chain::decimal::read_i64;
use pointer_chain::{parse_directory_structure, FileItem};

fn file(name: &str, size: Option<i64>, last_opened: Option<i64>) -> FileItem {
    FileItem {
        item_type: "file".to_string(),
        name: name.to_string(),
        size,
        last_opened,
        children: None,
    }
}

fn directory(name: &str, children: Vec<FileItem>) -> FileItem {
    FileItem {
        item_type: "directory".to_string(),
        name: name.to_string(),
        size: None,
        last_opened: None,
        children: if children.is_empty() { None } else { Some(children) },
    }
}

/// The forest built line by line, with the open directories kept as a path of indices.
fn line_by_line(raw: &str) -> Vec<FileItem> {
    let mut roots: Vec<FileItem> = Vec::new();
    let mut path: Vec<usize> = Vec::new();
    for line in raw.lines() {
        let indent = line.chars().take_while(|&c| c == ' ').count() / 2;
        let content = line.trim_start();
        let Some((kind, rest)) = content.split_once(':') else { continue };
        let item = match kind {
            "dir" => directory(rest, Vec::new()),
            "file" => {
                let parts: Vec<&str> = rest.split(',').collect();
                if parts.len() != 3 {
                    continue;
                }
                file(parts[0], parts[1].parse().ok(), parts[2].parse().ok())
            }
            _ => continue,
        };
        while path.len() > indent {
            path.pop();
        }
        let is_directory = kind == "dir";
        if path.is_empty() {
            roots.push(item);
            if is_directory {
                path.push(roots.len() - 1);
            }
        } else {
            let mut parent = &mut roots[path[0]];
            for &index in &path[1..] {
                parent = &mut parent.children.as_mut().unwrap()[index];
            }
            let held = parent.children.get_or_insert_with(Vec::new);
            held.push(item);
            if is_directory {
                path.push(held.len() - 1);
            }
        }
    }
    roots
}

#[test]
fn files_and_directories_by_depth() {
    let raw = "dir:home\n  file:a.txt,12,1700000000\n  dir:docs\n    file:b.txt,5,7\nfile:top,1,2\n";
    assert_eq!(
        parse_directory_structure(raw),
        vec![
            directory(
                "home",
                vec![
                    file("a.txt", Some(12), Some(1700000000)),
                    directory("docs", vec![file("b.txt", Some(5), Some(7))]),
                ]
            ),
            file("top", Some(1), Some(2)),
        ]
    );
}

#[test]
fn empty_listing_holds_nothing() {
    assert_eq!(parse_directory_structure(""), Vec::<FileItem>::new());
    assert_eq!(parse_directory_structure("\n\n"), Vec::<FileItem>::new());
    assert_eq!(parse_directory_structure("nothing here"), Vec::<FileItem>::new());
}

#[test]
fn directory_without_items_has_no_children() {
    assert_eq!(parse_directory_structure("dir:empty"), vec![directory("empty", vec![])]);
    assert_eq!(
        parse_directory_structure("dir:a\ndir:b"),
        vec![directory("a", vec![]), directory("b", vec![])]
    );
}

#[test]
fn lines_that_describe_nothing_are_passed_over() {
    let raw = "dir:a\n  link:x\n  file:two,1\n  file:four,1,2,3\n  no colon\n  file:ok,1,2\n";
    assert_eq!(
        parse_directory_structure(raw),
        vec![directory("a", vec![file("ok", Some(1), Some(2))])]
    );
}

#[test]
fn passed_over_line_closes_no_directory() {
    let raw = "dir:a\n  dir:b\nlink:x\n    file:deep,1,2\n";
    assert_eq!(
        parse_directory_structure(raw),
        vec![directory("a", vec![directory("b", vec![file("deep", Some(1), Some(2))])])]
    );
}

#[test]
fn size_or_time_that_is_no_number_is_left_out() {
    assert_eq!(
        parse_directory_structure("file:a,big,-7\nfile:b, 1,2 \nfile:c,,\n"),
        vec![
            file("a", None, Some(-7)),
            file("b", None, None),
            file("c", None, None),
        ]
    );
}

#[test]
fn item_indented_too_deep_joins_the_deepest_directory() {
    let raw = "dir:a\n        file:far,1,2\n  dir:b\n          dir:c\nfile:top,3,4";
    assert_eq!(
        parse_directory_structure(raw),
        vec![
            directory(
                "a",
                vec![file("far", Some(1), Some(2)), directory("b", vec![directory("c", vec![])])]
            ),
            file("top", Some(3), Some(4)),
        ]
    );
}

#[test]
fn items_after_a_file_stay_with_its_directory() {
    let raw = "dir:a\n  file:x,1,2\n    file:y,3,4\n";
    assert_eq!(
        parse_directory_structure(raw),
        vec![directory("a", vec![file("x", Some(1), Some(2)), file("y", Some(3), Some(4))])]
    );
}

#[test]
fn two_blanks_make_one_level() {
    let raw = "dir:a\n   file:three,1,2\n dir:one\n\tfile:tab,1,2\n \t   file:mixed,1,2\n";
    assert_eq!(
        parse_directory_structure(raw),
        vec![
            directory("a", vec![file("three", Some(1), Some(2))]),
            directory("one", vec![]),
            file("tab", Some(1), Some(2)),
            file("mixed", Some(1), Some(2)),
        ]
    );
}

#[test]
fn name_is_what_follows_the_first_colon() {
    assert_eq!(
        parse_directory_structure("dir:C:\\Users\ndir:\ndir: spaced \n"),
        vec![directory("C:\\Users", vec![]), directory("", vec![]), directory(" spaced ", vec![])]
    );
    assert_eq!(
        parse_directory_structure("file:a:b,1,2\nfile:,1,2"),
        vec![file("a:b", Some(1), Some(2)), file("", Some(1), Some(2))]
    );
}

#[test]
fn carriage_return_before_a_line_feed_ends_the_line() {
    assert_eq!(
        parse_directory_structure("dir:a\r\n  file:b,1,2\r\n"),
        vec![directory("a", vec![file("b", Some(1), Some(2))])]
    );
    assert_eq!(parse_directory_structure("file:b,1,2\r"), vec![file("b", Some(1), None)]);
    assert_eq!(parse_directory_structure("dir:a\r\r\n"), vec![directory("a\r", vec![])]);
    assert_eq!(parse_directory_structure("\r\ndir:a"), vec![directory("a", vec![])]);
}

#[test]
fn unicode_white_space_before_an_entry_is_passed_over() {
    assert_eq!(
        parse_directory_structure("\u{a0}\u{2003}dir:a\n\u{3000}file:b,1,2"),
        vec![directory("a", vec![]), file("b", Some(1), Some(2))]
    );
    assert_eq!(parse_directory_structure("\u{200b}dir:a"), Vec::<FileItem>::new());
}

#[test]
fn copy_equals_the_original() {
    let items = parse_directory_structure("dir:a\n  dir:b\n    file:c,1,2\n  file:d,3,x\n");
    let copies: Vec<FileItem> = items.iter().map(|item| item.clone()).collect();
    assert_eq!(copies, items);
    assert_eq!(copies[0].children.as_ref().unwrap().len(), 2);
}

#[test]
fn signed_decimal_numbers() {
    let read = |text: &str| read_i64(&text.chars().collect::<Vec<char>>());
    assert_eq!(read("0"), Some(0));
    assert_eq!(read("-0"), Some(0));
    assert_eq!(read("+17"), Some(17));
    assert_eq!(read("-17"), Some(-17));
    assert_eq!(read("0017"), Some(17));
    assert_eq!(read("9223372036854775807"), Some(i64::MAX));
    assert_eq!(read("9223372036854775808"), None);
    assert_eq!(read("-9223372036854775808"), Some(i64::MIN));
    assert_eq!(read("-9223372036854775809"), None);
    assert_eq!(read("99999999999999999999999"), None);
    assert_eq!(read(""), None);
    assert_eq!(read("+"), None);
    assert_eq!(read("-"), None);
    assert_eq!(read("--1"), None);
    assert_eq!(read("1 "), None);
    assert_eq!(read("1a"), None);
    assert_eq!(read("\u{663}"), None);
}

struct Source(u64);

impl Source {
    fn next(&mut self, bound: usize) -> usize {
        self.0 = self.0.wrapping_mul(6364136223846793005).wrapping_add(1442695040888963407);
        ((self.0 >> 33) as usize) % bound
    }

    fn text(&mut self, alphabet: &[&str], longest: usize) -> String {
        let length = self.next(longest + 1);
        let mut out = String::new();
        for _ in 0..length {
            out.push_str(alphabet[self.next(alphabet.len())]);
        }
        out
    }
}

#[test]
fn signed_decimal_numbers_agree_with_the_standard_library() {
    let alphabet = ["0", "1", "9", "-", "+", "922337203685477580", "7", "8", " ", "a"];
    let mut source = Source(11);
    for _ in 0..5000 {
        let text = source.text(&alphabet, 5);
        let chars: Vec<char> = text.chars().collect();
        assert_eq!(read_i64(&chars), text.parse::<i64>().ok(), "text {:?}", text);
    }
}

#[test]
fn listing_agrees_with_building_line_by_line() {
    let alphabet = [
        "dir:", "file:", "  ", " ", "\n", "\n", "\r\n", "\r", "a", ",", ",", "1", "-5", "+", ":",
        "\t", "x:", "99999999999999999999", "\u{a0}", "dir:d\n", "file:f,1,2\n", "    ",
    ];
    let mut source = Source(0xfeed_beef);
    for _ in 0..5000 {
        let text = source.text(&alphabet, 14);
        assert_eq!(parse_directory_structure(&text), line_by_line(&text), "listing {:?}", text);
    }
}
