use luminal_vgd::headers::{announced_tags, replace_all, stamp_types};

fn chars(s: &str) -> Vec<char> {
    s.chars().collect()
}

fn text(v: &[char]) -> String {
    v.iter().collect()
}

#[test]
fn tags_are_collected_from_typed_announcements_only() {
    let src = "enum A : int;\r\n  enum  B  : int;\t\nenum C;\nint enum D : int;\nenum E : int; // x\nenum F : int;";
    let tags: Vec<String> = announced_tags(&chars(src)).iter().map(|t| text(t)).collect();
    assert_eq!(tags, vec!["A", "B", "F"]);
    assert!(announced_tags(&chars("enum : int;")).is_empty(), "prefix and suffix may not overlap");
    assert!(announced_tags(&[]).is_empty());
}

#[test]
fn definitions_get_the_announced_type() {
    let tags = announced_tags(&chars("enum _X : int;\nenum _Y : int;\n"));
    let src = "typedef enum _X {\n a\n} X;\ntypedef enum _Y {\n} Y;\ntypedef enum _Z {\n} Z;\n";
    let want = "typedef enum _X : int {\n a\n} X;\ntypedef enum _Y : int {\n} Y;\ntypedef enum _Z {\n} Z;\n";
    let once = stamp_types(&chars(src), &tags);
    assert_eq!(text(&once), want);
    assert_eq!(text(&stamp_types(&once, &tags)), want, "stamping again changes nothing");
}

#[test]
fn replacement_agrees_with_the_standard_library() {
    for (s, from, to) in [
        ("aaaa", "aa", "b"),
        ("aaaaa", "aa", "aaa"),
        ("", "x", "y"),
        ("abcabc", "abc", ""),
        ("xabab", "abab", "z"),
        ("ab", "abc", "z"),
    ] {
        assert_eq!(text(&replace_all(&chars(s), &chars(from), &chars(to))), s.replace(from, to));
    }
}
