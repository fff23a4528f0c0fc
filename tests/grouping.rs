use gb::config::{parse_keys, Opt, Summary};
use gb::emit::{group_line, header_line};
use gb::groups::Groups;
use gb::header::{find_column, HeaderIndex};
use gb::text::{join_cells, same_cells, split, trim, white_space};

fn cells(xs: &[&str]) -> Vec<String> {
    xs.iter().map(|x| x.to_string()).collect()
}

fn opt(keys: &[&str], field: &str, delimiter: char, function: Summary) -> Opt {
    Opt {
        keys: cells(keys),
        field: field.to_string(),
        delimiter,
        function,
    }
}

/// Runs the grouping over delimited lines (the first is the header) and
/// returns the groups with the parsed sample values.
fn run(lines: &[&str], o: &Opt) -> (Groups, Vec<f64>) {
    let header = split(lines[0], o.delimiter);
    let index = match HeaderIndex::build(&header, o) {
        Ok(ix) => ix,
        Err(_) => panic!("columns not found"),
    };
    let mut groups = Groups::new();
    let mut values: Vec<f64> = Vec::new();
    for line in &lines[1..] {
        let record = split(line, o.delimiter);
        let parsed = record
            .get(index.field_pos)
            .and_then(|c| c.parse::<f64>().ok());
        assert!(groups.ingest(&record, &index, parsed.is_some()).is_ok());
        if let Some(v) = parsed {
            values.push(v);
        }
    }
    (groups, values)
}

fn summarize(function: Summary, list: &[f64]) -> Option<f64> {
    let n = list.len();
    let mean = if n > 0 {
        Some(list.iter().sum::<f64>() / n as f64)
    } else {
        None
    };
    let sd = mean.map(|m| {
        (list.iter().map(|v| (m - v) * (m - v)).sum::<f64>() / n as f64).sqrt()
    });
    match function {
        Summary::Mean => mean,
        Summary::N => Some(n as f64),
        Summary::StdDev => sd,
        Summary::Var => sd.map(|s| s.powf(2.0)),
    }
}

/// The output lines: header first, then the group lines sorted.
fn output(lines: &[&str], o: &Opt) -> (String, Vec<String>) {
    let (groups, values) = run(lines, o);
    let mut out = Vec::new();
    for g in 0..groups.group_count() {
        let list: Vec<f64> = groups.bucket(g).iter().map(|&i| values[i]).collect();
        let rendered = format!("{:?}", summarize(o.function, &list));
        out.push(group_line(groups.key(g), o.delimiter, &rendered));
    }
    out.sort();
    (header_line(&o.keys, o.delimiter), out)
}

const S1: [&str; 4] = ["a\tb\tv", "x\tp\t1", "x\tp\t2", "y\tq\t5"];
const S3: [&str; 4] = ["k\tv", "a\t1", "a\t3", "a\t5"];

#[test]
fn tab_input_count() {
    let (h, lines) = output(&S1, &opt(&["a", "b"], "v", '\t', Summary::N));
    assert_eq!(h, "a\tb\tN");
    assert_eq!(lines, vec!["x\tp\tSome(2.0)", "y\tq\tSome(1.0)"]);
}

#[test]
fn tab_input_mean() {
    let (h, lines) = output(&S1, &opt(&["a", "b"], "v", '\t', Summary::Mean));
    assert_eq!(h, "a\tb\tN");
    assert_eq!(lines, vec!["x\tp\tSome(1.5)", "y\tq\tSome(5.0)"]);
}

#[test]
fn standard_deviation_population_divisor() {
    let (_, lines) = output(&S3, &opt(&["k"], "v", '\t', Summary::StdDev));
    assert_eq!(lines, vec!["a\tSome(1.632993161855452)"]);
}

#[test]
fn variance_population_divisor() {
    let (_, lines) = output(&S3, &opt(&["k"], "v", '\t', Summary::Var));
    assert_eq!(lines, vec!["a\tSome(2.6666666666666665)"]);
}

#[test]
fn non_numeric_value_is_skipped() {
    let input = ["k\tv", "a\t1", "a\tNA", "a\t3"];
    let o = opt(&["k"], "v", '\t', Summary::Mean);
    let (_, lines) = output(&input, &o);
    assert_eq!(lines, vec!["a\tSome(2.0)"]);
    let (groups, _) = run(&input, &o);
    assert_eq!(groups.records(), 3);
    assert_eq!(groups.skipped(), 1);
    assert_eq!(groups.samples(), 2);
}

#[test]
fn comma_delimiter_with_keys_from_one_argument() {
    let keys = parse_keys("k1,k2");
    let o = Opt {
        keys,
        field: "v".to_string(),
        delimiter: ',',
        function: Summary::Mean,
    };
    let (h, lines) = output(&["k1,k2,v", "a,b,10", "a,b,20", "c,d,30"], &o);
    assert_eq!(h, "k1,k2\tN");
    assert_eq!(lines, vec!["a,b\tSome(15.0)", "c,d\tSome(30.0)"]);
}

#[test]
fn group_sizes_and_skips_add_up_to_records() {
    let input = ["k\tv", "a\t1", "b\tx", "a\t2", "c\t", "b\t4", "c\t1e3"];
    let (groups, _) = run(&input, &opt(&["k"], "v", '\t', Summary::N));
    let total: usize = (0..groups.group_count()).map(|g| groups.bucket(g).len()).sum();
    assert_eq!(total, 4);
    assert_eq!(groups.skipped(), 2);
    assert_eq!(total + groups.skipped(), groups.records());
    assert_eq!(groups.records(), 6);
}

#[test]
fn equal_keys_share_a_bucket_and_different_keys_do_not() {
    let input = ["a\tb\tv", "x\tp\t1", "x\tq\t2", "x\tp\t3", "y\tp\t4"];
    let (groups, _) = run(&input, &opt(&["a", "b"], "v", '\t', Summary::N));
    assert_eq!(groups.group_count(), 3);
    assert_eq!(groups.key(0), &cells(&["x", "p"]));
    assert_eq!(groups.bucket(0), &vec![0, 2]);
    assert_eq!(groups.key(1), &cells(&["x", "q"]));
    assert_eq!(groups.bucket(1), &vec![1]);
    assert_eq!(groups.key(2), &cells(&["y", "p"]));
    assert_eq!(groups.bucket(2), &vec![3]);
}

#[test]
fn permuted_records_give_the_same_lines() {
    let o = opt(&["k"], "v", '\t', Summary::Mean);
    let (h1, l1) = output(&["k\tv", "a\t1", "b\t2", "a\t3", "b\t6"], &o);
    let (h2, l2) = output(&["k\tv", "b\t6", "a\t3", "b\t2", "a\t1"], &o);
    assert_eq!(h1, h2);
    assert_eq!(l1, l2);
    assert_eq!(l1, vec!["a\tSome(2.0)", "b\tSome(4.0)"]);
}

#[test]
fn extra_non_numeric_records_change_no_group() {
    let o = opt(&["k"], "v", '\t', Summary::StdDev);
    let (_, l1) = output(&["k\tv", "a\t1", "a\t2", "b\t3"], &o);
    let (_, l2) = output(&["k\tv", "z\tNA", "a\t1", "a\tfoo", "a\t2", "b\t", "b\t3"], &o);
    assert_eq!(l1, l2);
}

#[test]
fn output_keys_split_back_on_delimiter() {
    let key = cells(&["a", "b", "c"]);
    let line = join_cells(&key, ';');
    assert_eq!(line, "a;b;c");
    assert_eq!(split(&line, ';'), key);
    let single = cells(&["only"]);
    assert_eq!(split(&join_cells(&single, ','), ','), single);
}

#[test]
fn missing_columns_are_all_named() {
    let header = cells(&["a", "b", "v"]);
    let o = opt(&["a", "zz", "b", "yy"], "w", '\t', Summary::N);
    match HeaderIndex::build(&header, &o) {
        Ok(_) => panic!("expected an unknown column"),
        Err(e) => {
            assert_eq!(e.missing, cells(&["w", "zz", "yy"]));
            assert_eq!(
                e.message(),
                "Either the field or the key(s) were not recognised, please check spelling."
            );
        }
    }
    let o2 = opt(&["a", "q"], "v", '\t', Summary::N);
    match HeaderIndex::build(&header, &o2) {
        Ok(_) => panic!("expected an unknown column"),
        Err(e) => assert_eq!(e.missing, cells(&["q"])),
    }
}

#[test]
fn positions_use_first_occurrence() {
    let header = cells(&["k", "v", "k", "v"]);
    let o = opt(&["k"], "v", '\t', Summary::N);
    let index = match HeaderIndex::build(&header, &o) {
        Ok(ix) => ix,
        Err(_) => panic!("columns not found"),
    };
    assert_eq!(index.field_pos, 1);
    assert_eq!(index.key_positions, vec![0]);
    assert_eq!(find_column(&header, &"v".to_string()), Some(1));
    assert_eq!(find_column(&header, &"V".to_string()), None);
    assert_eq!(find_column(&header, &" v".to_string()), None);
}

#[test]
fn field_may_also_be_a_key() {
    let (groups, values) = run(&["k\tv", "1\t1", "2\t2", "1\t1"], &opt(&["v"], "v", '\t', Summary::N));
    assert_eq!(groups.group_count(), 2);
    assert_eq!(groups.key(0), &cells(&["1"]));
    assert_eq!(groups.bucket(0), &vec![0, 2]);
    assert_eq!(values, vec![1.0, 2.0, 1.0]);
}

#[test]
fn short_record_is_refused_and_changes_nothing() {
    let header = cells(&["k", "x", "v"]);
    let o = opt(&["k"], "v", ',', Summary::N);
    let index = match HeaderIndex::build(&header, &o) {
        Ok(ix) => ix,
        Err(_) => panic!("columns not found"),
    };
    let mut groups = Groups::new();
    assert!(groups.ingest(&cells(&["a", "b", "1"]), &index, true).is_ok());
    let short = cells(&["a", "b"]);
    assert!(!index.fits(&short));
    match groups.ingest(&short, &index, true) {
        Ok(_) => panic!("expected a short record"),
        Err(e) => assert_eq!(e.len, 2),
    }
    assert_eq!(groups.records(), 1);
    assert_eq!(groups.group_count(), 1);
    assert_eq!(groups.bucket(0), &vec![0]);
}

#[test]
fn empty_input_has_no_groups() {
    let (h, lines) = output(&["k\tv"], &opt(&["k"], "v", '\t', Summary::N));
    assert_eq!(h, "k\tN");
    assert!(lines.is_empty());
    let groups = Groups::new();
    assert_eq!(groups.records(), 0);
    assert_eq!(groups.group_count(), 0);
}

#[test]
fn key_argument_is_split_and_trimmed() {
    assert_eq!(parse_keys("k1, k2 ,\tk3"), cells(&["k1", "k2", "k3"]));
    assert_eq!(parse_keys("single"), cells(&["single"]));
    assert_eq!(parse_keys("a,,b"), cells(&["a", "", "b"]));
    assert_eq!(parse_keys(""), cells(&[""]));
}

#[test]
fn trim_removes_unicode_white_space() {
    assert_eq!(trim("\u{3000} a b\u{A0}\n"), "a b");
    assert_eq!(trim("   "), "");
    assert_eq!(trim("x"), "x");
    assert!(white_space('\u{2003}'));
    assert!(!white_space('\u{200B}'));
    assert!(!white_space('a'));
}

#[test]
fn summary_names_ignore_case() {
    assert_eq!(Summary::from_name("mean"), Some(Summary::Mean));
    assert_eq!(Summary::from_name("MEAN"), Some(Summary::Mean));
    assert_eq!(Summary::from_name("N"), Some(Summary::N));
    assert_eq!(Summary::from_name("n"), Some(Summary::N));
    assert_eq!(Summary::from_name("Sd"), Some(Summary::StdDev));
    assert_eq!(Summary::from_name("VAR"), Some(Summary::Var));
    assert_eq!(Summary::from_name("median"), None);
    assert_eq!(Summary::from_name("means"), None);
    assert_eq!(Summary::from_name(""), None);
}

#[test]
fn summary_tokens() {
    assert_eq!(Summary::Mean.name(), "mean");
    assert_eq!(Summary::N.name(), "N");
    assert_eq!(Summary::StdDev.name(), "sd");
    assert_eq!(Summary::Var.name(), "var");
}

#[test]
fn lines_are_assembled_with_delimiter_and_tab() {
    assert_eq!(header_line(&cells(&["k1", "k2"]), ','), "k1,k2\tN");
    assert_eq!(header_line(&cells(&["a", "b"]), '\t'), "a\tb\tN");
    assert_eq!(group_line(&cells(&["x", "y"]), '|', "None"), "x|y\tNone");
    assert_eq!(join_cells(&cells(&[]), ','), "");
}

#[test]
fn rows_compare_cell_by_cell() {
    assert!(same_cells(&cells(&["a", "b"]), &cells(&["a", "b"])));
    assert!(!same_cells(&cells(&["a", "b"]), &cells(&["a", "c"])));
    assert!(!same_cells(&cells(&["ab"]), &cells(&["a", "b"])));
}
