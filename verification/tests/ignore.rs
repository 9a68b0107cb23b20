use nextsync::ignore::{ignore_file, normalize_rule};

fn rules(data: &str) -> Vec<String> {
    data.lines().map(|l| normalize_rule(l.to_string())).collect()
}

#[test]
fn test_ignore_files() {
    let lines = rules("*.log\nexclude\n/logs/\n/build/target/\n**/*.swp\nsecret/\n");
    let mut ignf = vec![];
    assert_eq!(ignore_file(&String::from("error.log"), lines.clone(), &mut ignf), true);
    assert_eq!(ignore_file(&String::from("./error.log"), lines.clone(), &mut ignf), true);
    assert_eq!(ignore_file(&String::from("dir/error.log"), lines.clone(), &mut ignf), true);

    assert_eq!(ignore_file(&String::from("exclude"), lines.clone(), &mut ignf), true);
    assert_eq!(ignore_file(&String::from("dir/exclude"), lines.clone(), &mut ignf), true);

    assert_eq!(ignore_file(&String::from("logs/dir/file2"), lines.clone(), &mut ignf), true);
    assert_eq!(ignore_file(&String::from("dir/logs/dir/file2"), lines.clone(), &mut ignf), false);

    assert_eq!(ignore_file(&String::from("build/target/file1"), lines.clone(), &mut ignf), true);
    assert_eq!(ignore_file(&String::from("build/target/dir/file1"), lines.clone(), &mut ignf), true);
    assert_eq!(ignore_file(&String::from("build"), lines.clone(), &mut ignf), false);
    assert_eq!(ignore_file(&String::from("build/target"), lines.clone(), &mut ignf), true);
    assert_eq!(ignore_file(&String::from("dir/build/target"), lines.clone(), &mut ignf), false);

    assert_eq!(ignore_file(&String::from("dir/file.swp"), lines.clone(), &mut ignf), true);
    assert_eq!(ignore_file(&String::from(".swp"), lines.clone(), &mut ignf), false);

    assert_eq!(ignore_file(&String::from("secret"), lines.clone(), &mut ignf), true);
    assert_eq!(ignore_file(&String::from("dir/secret"), lines.clone(), &mut ignf), true);
    assert_eq!(ignore_file(&String::from("dir/secret/file"), lines.clone(), &mut ignf), true);
}

#[test]
fn test_ignore_files_negation() {
    let lines = rules("*\n!*.log\n!*log.*\n");
    let mut ignf = vec![];
    assert_eq!(ignore_file(&String::from("file"), lines.clone(), &mut ignf), true);
    assert_eq!(ignore_file(&String::from("dir/file"), lines.clone(), &mut ignf), true);
    assert_eq!(ignore_file(&String::from("file.log"), lines.clone(), &mut ignf), false);
    assert_eq!(ignore_file(&String::from("log.file"), lines.clone(), &mut ignf), false);
    assert_eq!(ignore_file(&String::from("dir/file.log"), lines.clone(), &mut ignf), false);
    assert_eq!(ignore_file(&String::from("dir/log.file"), lines.clone(), &mut ignf), false);
}

#[test]
fn normalize_rule_examples() {
    assert_eq!(normalize_rule("/logs/".to_string()), "^logs(/.*)?");
    assert_eq!(normalize_rule("!/a.b".to_string()), "!^a\\.b");
    assert_eq!(normalize_rule("*.log".to_string()), ".*\\.log");
    assert_eq!(normalize_rule("plain".to_string()), "plain");
}

#[test]
fn ignored_paths_are_collected_in_order() {
    let lines = rules("*.log\n");
    let mut ignf = vec![];
    ignore_file(&String::from("a.log"), lines.clone(), &mut ignf);
    ignore_file(&String::from("b.txt"), lines.clone(), &mut ignf);
    ignore_file(&String::from("c.log"), lines.clone(), &mut ignf);
    assert_eq!(ignf, vec!["a.log".to_string(), "c.log".to_string()]);
}

#[test]
fn ignore_files_partitions_paths() {
    let lines = rules("*.log\n");
    let mut files = vec!["a.log".to_string(), "b.txt".to_string(), "c.log".to_string()];
    let (any, ignored) = nextsync::ignore::_ignore_files(&mut files, Some(lines));
    assert!(any);
    assert_eq!(files, vec!["b.txt".to_string()]);
    assert_eq!(ignored, vec!["a.log".to_string(), "c.log".to_string()]);
}

#[test]
fn invalid_rule_gives_no_verdict() {
    let lines = vec!["(".to_string()];
    assert_eq!(nextsync::ignore::try_ignore_file(&"x".to_string(), &lines), None);
    let mut files = vec!["x".to_string()];
    assert_eq!(nextsync::ignore::try_ignore_files(&mut files, Some(lines)), None);
    assert_eq!(files, vec!["x".to_string()]);
}
