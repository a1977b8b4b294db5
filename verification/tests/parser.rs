use winget_update::package::WingetPackage;
use winget_update::command::Invocation;
use winget_update::parser::{
    is_terminator_line, parse_winget_line, parse_winget_output, read_listing, ListingError,
};

fn package(name: &str, id: &str, current: &str, available: &str, source: &str) -> WingetPackage {
    WingetPackage {
        name: name.to_string(),
        id: id.to_string(),
        current_version: current.to_string(),
        available_version: available.to_string(),
        source: source.to_string(),
    }
}

const HEADER: &str = "Name               Id                          Version Available Source\n\
                      ------------------------------------------------------------------------\n";

#[test]
fn visual_studio_code_line_is_read() {
    let parsed =
        parse_winget_line("Visual Studio Code Microsoft.VisualStudioCode 1.84.0 1.85.1 winget");
    assert_eq!(
        parsed,
        Some(package(
            "Visual Studio Code",
            "Microsoft.VisualStudioCode",
            "1.84.0",
            "1.85.1",
            "winget"
        ))
    );
}

#[test]
fn line_of_five_words_has_a_name_of_one_word() {
    let parsed = parse_winget_line("Git Git.Git 2.42.0 2.43.0 winget");
    assert_eq!(parsed, Some(package("Git", "Git.Git", "2.42.0", "2.43.0", "winget")));
}

#[test]
fn columns_are_read_from_the_end() {
    for n in 5..12 {
        let words: Vec<String> = (1..=n).map(|i| format!("w{}", i)).collect();
        let line = words.join(" ");
        let parsed = parse_winget_line(&line);
        let expected = package(
            &words[..n - 4].join(" "),
            &words[n - 4],
            &words[n - 3],
            &words[n - 2],
            &words[n - 1],
        );
        assert_eq!(parsed, Some(expected), "{}", line);
    }
}

#[test]
fn wide_columns_collapse_to_single_spaces() {
    let parsed = parse_winget_line(
        "  Mozilla  Firefox      Mozilla.Firefox      119.0   120.0.1    winget   ",
    );
    assert_eq!(
        parsed,
        Some(package("Mozilla Firefox", "Mozilla.Firefox", "119.0", "120.0.1", "winget"))
    );
}

#[test]
fn tabs_and_carriage_returns_separate_words_too() {
    let parsed = parse_winget_line("7-Zip\t7zip.7zip\t23.01 24.05\u{a0}winget\r");
    assert_eq!(parsed, Some(package("7-Zip", "7zip.7zip", "23.01", "24.05", "winget")));
}

#[test]
fn name_keeps_characters_beyond_ascii() {
    let parsed = parse_winget_line("Atualização Rápida Fornecedor.App 1.0 2.0 msstore");
    assert_eq!(
        parsed,
        Some(package("Atualização Rápida", "Fornecedor.App", "1.0", "2.0", "msstore"))
    );
}

#[test]
fn short_lines_give_no_record() {
    for line in ["", "   ", "one", "one two", "one two three", "one two three four", " a b  c d "] {
        assert_eq!(parse_winget_line(line), None, "{:?}", line);
    }
}

#[test]
fn rule_under_the_column_heads_gives_no_record() {
    assert_eq!(parse_winget_line("----------------------------------------------"), None);
}

#[test]
fn terminators_are_blank_lines_and_trailers() {
    assert!(is_terminator_line(""));
    assert!(is_terminator_line("   \t"));
    assert!(is_terminator_line("\r"));
    assert!(is_terminator_line("3 upgrades available."));
    assert!(is_terminator_line("3 atualizações disponíveis."));
    assert!(is_terminator_line("note: 12 upgrades available, 2 pinned"));
    assert!(!is_terminator_line("Git Git.Git 2.42.0 2.43.0 winget"));
    assert!(!is_terminator_line("upgrades  available"));
    assert!(!is_terminator_line("Upgrades Available"));
    assert!(!is_terminator_line("atualizacoes disponiveis"));
}

#[test]
fn one_row_then_blank_line_then_junk() {
    let output = format!(
        "{}Git Git.Git 2.42.0 2.43.0 winget\n\nThe following packages have an upgrade available too\nNode.js OpenJS.NodeJS 20.0.0 21.0.0 winget\n",
        HEADER
    );
    let packages = parse_winget_output(&output);
    assert_eq!(packages, vec![package("Git", "Git.Git", "2.42.0", "2.43.0", "winget")]);
}

#[test]
fn blank_line_stops_the_reading() {
    let output = format!(
        "{}A A.A 1 2 winget\nB B.B 1 2 winget\n   \nC C.C 1 2 winget\nD D.D 1 2 winget\n",
        HEADER
    );
    let packages = parse_winget_output(&output);
    assert_eq!(
        packages,
        vec![package("A", "A.A", "1", "2", "winget"), package("B", "B.B", "1", "2", "winget")]
    );
}

#[test]
fn both_trailers_stop_the_reading_alike() {
    let rows = "A A.A 1 2 winget\nB B.B 1 2 winget\n";
    let behind = "C C.C 1 2 winget\n";
    let english = format!("{}{}2 upgrades available.\n{}", HEADER, rows, behind);
    let portuguese = format!("{}{}2 atualizações disponíveis.\n{}", HEADER, rows, behind);
    let bare = format!("{}{}", HEADER, rows);
    let expected =
        vec![package("A", "A.A", "1", "2", "winget"), package("B", "B.B", "1", "2", "winget")];
    assert_eq!(parse_winget_output(&english), expected);
    assert_eq!(parse_winget_output(&portuguese), expected);
    assert_eq!(parse_winget_output(&bare), expected);
}

#[test]
fn trailer_is_checked_before_the_row_is_read() {
    let output = format!(
        "{}A A.A 1 2 winget\nAll upgrades available Vendor.All 1 2 winget\nB B.B 1 2 winget\n",
        HEADER
    );
    assert_eq!(parse_winget_output(&output), vec![package("A", "A.A", "1", "2", "winget")]);
}

#[test]
fn records_keep_the_order_of_the_rows() {
    let ids = ["Zeta.Z", "Alpha.A", "Mid.M", "Beta.B", "Omega.O"];
    let mut output = String::from(HEADER);
    for id in ids {
        output.push_str(&format!("Package {} 1.0 2.0 winget\n", id));
    }
    let packages = parse_winget_output(&output);
    let read: Vec<&str> = packages.iter().map(|p| p.id.as_str()).collect();
    assert_eq!(read, ids);
}

#[test]
fn short_row_is_left_out_and_reading_goes_on() {
    let output = format!(
        "{}A A.A 1 2 winget\nnot a row\nB B.B 1 2 winget\ntoo few words here\nC C.C 1 2 winget\n",
        HEADER
    );
    let packages = parse_winget_output(&output);
    let read: Vec<&str> = packages.iter().map(|p| p.id.as_str()).collect();
    assert_eq!(read, ["A.A", "B.B", "C.C"]);
}

#[test]
fn first_two_lines_are_passed_over_whatever_they_hold() {
    let output = "Looks Like.A.Row 1 2 winget\n\nA A.A 1 2 winget\n";
    assert_eq!(parse_winget_output(output), vec![package("A", "A.A", "1", "2", "winget")]);
    let output = "3 upgrades available.\nOther Like.A.Row 1 2 winget\nB B.B 1 2 winget\n";
    assert_eq!(parse_winget_output(output), vec![package("B", "B.B", "1", "2", "winget")]);
}

#[test]
fn output_without_rows_gives_no_record() {
    assert!(parse_winget_output("").is_empty());
    assert!(parse_winget_output("\n").is_empty());
    assert!(parse_winget_output("No installed package found matching input criteria.").is_empty());
    assert!(parse_winget_output(HEADER).is_empty());
    assert!(parse_winget_output("A A.A 1 2 winget\nB B.B 1 2 winget").is_empty());
}

#[test]
fn last_row_needs_no_line_feed() {
    let output = format!("{}A A.A 1 2 winget", HEADER);
    assert_eq!(parse_winget_output(&output), vec![package("A", "A.A", "1", "2", "winget")]);
}

#[test]
fn windows_line_ends_are_read() {
    let output = "Name Id Version Available Source\r\n-----\r\nVisual Studio Code Microsoft.VisualStudioCode 1.84.0 1.85.1 winget\r\nGit Git.Git 2.42.0 2.43.0 winget\r\n\r\nGit Git.Git 0 0 junk\r\n";
    assert_eq!(
        parse_winget_output(output),
        vec![
            package("Visual Studio Code", "Microsoft.VisualStudioCode", "1.84.0", "1.85.1", "winget"),
            package("Git", "Git.Git", "2.42.0", "2.43.0", "winget"),
        ]
    );
}

#[test]
fn parsed_columns_are_single_words() {
    let output = format!(
        "{}Microsoft Visual C++ 2015-2022 Redistributable (x64) Microsoft.VCRedist.2015+.x64 14.36.32532.0 14.38.33130.0 winget\n",
        HEADER
    );
    let packages = parse_winget_output(&output);
    assert_eq!(packages.len(), 1);
    let p = &packages[0];
    assert_eq!(p.name, "Microsoft Visual C++ 2015-2022 Redistributable (x64)");
    for column in [&p.id, &p.current_version, &p.available_version, &p.source] {
        assert!(!column.is_empty());
        assert!(!column.contains(char::is_whitespace));
    }
}

#[test]
fn package_clone_is_equal() {
    let p = package("Visual Studio Code", "Microsoft.VisualStudioCode", "1.84.0", "1.85.1", "winget");
    assert_eq!(p.clone(), p);
}

#[test]
fn listing_that_succeeded_is_read() {
    let output = format!("{}Git Git.Git 2.42.0 2.43.0 winget\n", HEADER);
    assert_eq!(
        read_listing(Invocation::Ended { success: true }, &output),
        Ok(vec![package("Git", "Git.Git", "2.42.0", "2.43.0", "winget")])
    );
    assert_eq!(read_listing(Invocation::Ended { success: true }, ""), Ok(Vec::new()));
}

#[test]
fn listing_that_failed_is_not_read() {
    let output = format!("{}Git Git.Git 2.42.0 2.43.0 winget\n", HEADER);
    assert_eq!(
        read_listing(Invocation::Ended { success: false }, &output),
        Err(ListingError::Unsuccessful)
    );
}

#[test]
fn listing_that_did_not_start_is_not_read() {
    let output = format!("{}Git Git.Git 2.42.0 2.43.0 winget\n", HEADER);
    assert_eq!(read_listing(Invocation::NotStarted, &output), Err(ListingError::NotStarted));
    assert_eq!(read_listing(Invocation::NotStarted, ""), Err(ListingError::NotStarted));
}

#[test]
fn row_written_from_a_record_gives_the_record_back() {
    let records = [
        package("Git", "Git.Git", "2.42.0", "2.43.0", "winget"),
        package("Visual Studio Code", "Microsoft.VisualStudioCode", "1.84.0", "1.85.1", "winget"),
        package("Microsoft Visual C++ 2015-2022 (x64)", "Microsoft.VCRedist", "< 14.36", "14.38", "x"),
    ];
    for record in &records[..2] {
        let row = format!(
            "{} {} {} {} {}",
            record.name,
            record.id,
            record.current_version,
            record.available_version,
            record.source
        );
        assert_eq!(parse_winget_line(&row).as_ref(), Some(record));
    }
    let row = format!(
        "{} {} {} {} {}",
        records[2].name,
        records[2].id,
        records[2].current_version,
        records[2].available_version,
        records[2].source
    );
    let misread = parse_winget_line(&row).expect("the row has words enough");
    assert_eq!(misread.name, "Microsoft Visual C++ 2015-2022 (x64) Microsoft.VCRedist");
    assert_eq!(misread.id, "<");
    assert_eq!(misread.current_version, "14.36");
}
