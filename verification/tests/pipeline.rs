use density::{
    emit, exit_status, ingest, parse_line, render, settle, AppError, Columns, Density, IoFailure,
    Record, Records, EXIT_CLEAN, EXIT_FAILURE,
};

fn owned(lines: &[&str]) -> Vec<String> {
    lines.iter().map(|line| line.to_string()).collect()
}

/// The arithmetic that a caller does between reading and writing: the
/// weights as 64-bit floats, their total, and the two ratios of each record
/// with five digits after the point.
fn columns_of(records: &Records, settings: &Density) -> Vec<Columns> {
    let mut values: Vec<f64> = Vec::new();
    let mut total = 0.0;
    for i in 0..records.len() {
        let value: f64 = records.get(i).weight().parse().unwrap();
        total += value;
        values.push(value);
    }
    let factor = f64::from(settings.scale());
    let mut running = 0.0;
    let mut columns = Vec::new();
    for value in values {
        running += value;
        columns.push(Columns {
            density: format!("{:.5}", value / total * factor),
            cumulative: format!("{:.5}", running / total * factor),
        });
    }
    columns
}

fn run(lines: &[&str], settings: &Density) -> Result<Vec<String>, AppError> {
    let records = settings.ingest(owned(lines))?;
    let columns = columns_of(&records, settings);
    Ok(emit(&records, &columns))
}

#[test]
fn three_weights_as_fractions() {
    let settings = Density { verbose: false, field_pos: 1, percentage: false };
    let out = run(&["a\t1.0", "b\t2.0", "c\t7.0"], &settings).unwrap();
    assert_eq!(
        out,
        vec!["a\t1.0\t0.10000\t0.10000", "b\t2.0\t0.20000\t0.30000", "c\t7.0\t0.70000\t1.00000"]
    );
}

#[test]
fn three_weights_as_percentages() {
    let settings = Density { verbose: false, field_pos: 1, percentage: true };
    let out = run(&["a\t1.0", "b\t2.0", "c\t7.0"], &settings).unwrap();
    assert_eq!(
        out,
        vec![
            "a\t1.0\t10.00000\t10.00000",
            "b\t2.0\t20.00000\t30.00000",
            "c\t7.0\t70.00000\t100.00000"
        ]
    );
}

#[test]
fn a_field_that_is_no_number_gives_no_output() {
    let settings = Density::default();
    assert_eq!(run(&["x\tNaN"], &settings), Err(AppError::ParseError));
    assert_eq!(exit_status(Err(AppError::ParseError)), EXIT_FAILURE);
}

#[test]
fn a_bad_line_discards_the_lines_before_it() {
    let settings = Density::default();
    assert_eq!(run(&["1", "2", "x\tNaN", "4"], &settings), Err(AppError::ParseError));
}

#[test]
fn a_missing_field_gives_no_output() {
    let settings = Density { verbose: false, field_pos: 1, percentage: false };
    assert_eq!(run(&["x"], &settings), Err(AppError::IndexError));
    assert_eq!(run(&["a\t1", "x", "b\t2"], &settings), Err(AppError::IndexError));
    assert_eq!(exit_status(Err(AppError::IndexError)), EXIT_FAILURE);
}

#[test]
fn empty_input_gives_empty_output() {
    for percentage in [false, true] {
        let settings = Density { verbose: false, field_pos: 0, percentage };
        assert_eq!(run(&[], &settings), Ok(Vec::<String>::new()));
    }
    assert_eq!(exit_status(Ok(())), EXIT_CLEAN);
}

#[test]
fn the_first_bad_line_decides_the_error() {
    assert_eq!(ingest(owned(&["1\t1", "x\t1", "1"]), 0).err(), Some(AppError::ParseError));
    assert_eq!(ingest(owned(&["1\t1", "1", "1\tx"]), 1).err(), Some(AppError::IndexError));
    assert_eq!(ingest(owned(&["1\t1", "1\tx", "1"]), 1).err(), Some(AppError::ParseError));
}

#[test]
fn output_has_one_line_for_each_line_of_input() {
    let lines = ["5", "0.5\tb", "1e2\tc\td", "+3", "-1", ".25", "7."];
    for count in 0..=lines.len() {
        let out = run(&lines[..count], &Density::default()).unwrap();
        assert_eq!(out.len(), count);
    }
}

#[test]
fn output_keeps_the_order_and_the_text_of_the_input() {
    let lines = ["3\tz", "1\ty", "2\tx", "1\ty", "10\t\ta  b "];
    let out = run(&lines, &Density::default()).unwrap();
    assert_eq!(out.len(), lines.len());
    for (line, written) in lines.iter().zip(out.iter()) {
        assert!(written.starts_with(line));
        assert_eq!(written[line.len()..].matches('\t').count(), 2);
        let fields: Vec<&str> = written.split('\t').collect();
        let expected: Vec<&str> = line.split('\t').collect();
        assert_eq!(&fields[..fields.len() - 2], &expected[..]);
    }
    assert_eq!(out[0], "3\tz\t0.17647\t0.17647");
    assert_eq!(out[4], "10\t\ta  b \t0.58824\t1.00000");
}

#[test]
fn densities_sum_to_one() {
    let lines = ["1", "2", "3", "4", "0.5", "1e1", "7.25"];
    let out = run(&lines, &Density::default()).unwrap();
    let mut sum = 0.0;
    for written in &out {
        let fields: Vec<&str> = written.split('\t').collect();
        sum += fields[fields.len() - 2].parse::<f64>().unwrap();
    }
    assert!((sum - 1.0).abs() < 1e-4);
}

#[test]
fn the_last_cumulative_density_is_the_whole() {
    let lines = ["1", "2", "3", "4", "0.5", "1e1", "7.25"];
    for (percentage, whole) in [(false, "1.00000"), (true, "100.00000")] {
        let settings = Density { verbose: false, field_pos: 0, percentage };
        let out = run(&lines, &settings).unwrap();
        assert!(out.last().unwrap().ends_with(&format!("\t{}", whole)));
    }
}

#[test]
fn percentages_are_a_hundred_times_the_fractions() {
    let lines = ["1", "2", "3", "4", "0.5", "1e1", "7.25"];
    let fractions = run(&lines, &Density { verbose: false, field_pos: 0, percentage: false });
    let percentages = run(&lines, &Density { verbose: false, field_pos: 0, percentage: true });
    for (f, p) in fractions.unwrap().iter().zip(percentages.unwrap().iter()) {
        let f: Vec<&str> = f.split('\t').collect();
        let p: Vec<&str> = p.split('\t').collect();
        for column in 1..3 {
            let fraction: f64 = f[column].parse().unwrap();
            let percentage: f64 = p[column].parse().unwrap();
            assert!((fraction * 100.0 - percentage).abs() < 1e-2);
        }
    }
}

#[test]
fn the_factor_follows_the_percentage_setting() {
    assert_eq!(Density { verbose: false, field_pos: 0, percentage: false }.scale(), 1);
    assert_eq!(Density { verbose: true, field_pos: 3, percentage: true }.scale(), 100);
}

#[test]
fn the_default_settings_select_the_first_field() {
    let settings = Density::default();
    assert_eq!(settings.field_pos, 0);
    assert!(!settings.verbose);
    assert!(!settings.percentage);
}

#[test]
fn a_total_of_zero_is_passed_through() {
    let out = run(&["0", "0"], &Density::default()).unwrap();
    assert_eq!(out, vec!["0\tNaN\tNaN", "0\tNaN\tNaN"]);
    let out = run(&["1", "-1"], &Density::default()).unwrap();
    assert_eq!(out, vec!["1\tinf\tinf", "-1\t-inf\tNaN"]);
}

#[test]
fn infinity_and_nan_are_weights_like_any_other() {
    let settings = Density { verbose: false, field_pos: 1, percentage: false };
    assert_eq!(run(&["x\tNaN"], &settings), Ok(vec!["x\tNaN\tNaN\tNaN".to_string()]));
    assert_eq!(run(&["x\tinf"], &settings), Ok(vec!["x\tinf\tNaN\tNaN".to_string()]));
}

#[test]
fn parse_line_gives_the_text_of_the_weight() {
    assert_eq!(parse_line("a\t1.0", 1), Ok("1.0"));
    assert_eq!(parse_line("-2.5e3", 0), Ok("-2.5e3"));
    assert_eq!(parse_line("a\t1.0", 0), Err(AppError::ParseError));
    assert_eq!(parse_line("a\t1.0", 2), Err(AppError::IndexError));
    assert_eq!(parse_line("", 0), Err(AppError::ParseError));
    assert_eq!(parse_line("a\t\tb", 1), Err(AppError::ParseError));
    assert_eq!(parse_line("1.2.3", 0), Err(AppError::ParseError));
    assert_eq!(parse_line(" 1", 0), Err(AppError::ParseError));
}

#[test]
fn a_record_keeps_its_line_and_its_weight() {
    let record = Record::parse("name\t42\trest".to_string(), 1).unwrap();
    assert_eq!(record.line(), "name\t42\trest");
    assert_eq!(record.weight(), "42");
    assert_eq!(Record::parse("name".to_string(), 1).err(), Some(AppError::IndexError));
    assert_eq!(Record::parse("name".to_string(), 0).err(), Some(AppError::ParseError));
}

#[test]
fn records_grow_line_by_line() {
    let mut records = Records::new(1);
    assert_eq!(records.len(), 0);
    assert_eq!(records.push_line("a\t1".to_string()), Ok(()));
    assert_eq!(records.push_line("b".to_string()), Err(AppError::IndexError));
    assert_eq!(records.push_line("c\tc".to_string()), Err(AppError::ParseError));
    assert_eq!(records.push_line("d\t4".to_string()), Ok(()));
    assert_eq!(records.len(), 2);
    assert_eq!(records.get(0).line(), "a\t1");
    assert_eq!(records.get(0).weight(), "1");
    assert_eq!(records.get(1).line(), "d\t4");
    assert_eq!(records.get(1).weight(), "4");
}

#[test]
fn a_line_of_output_is_the_line_and_two_columns() {
    let columns = Columns { density: "0.25000".to_string(), cumulative: "0.75000".to_string() };
    assert_eq!(render("k\t1", &columns), "k\t1\t0.25000\t0.75000");
    assert_eq!(render("", &columns), "\t0.25000\t0.75000");
    let blank = Columns { density: String::new(), cumulative: String::new() };
    assert_eq!(render("k", &blank), "k\t\t");
}

#[test]
fn a_closed_output_pipe_is_no_failure() {
    let closed = Err(AppError::IoError(IoFailure::BrokenPipe));
    assert_eq!(settle(closed), Ok(()));
    assert_eq!(exit_status(closed), EXIT_CLEAN);
    assert!(AppError::IoError(IoFailure::BrokenPipe).is_benign());
}

#[test]
fn every_other_error_is_a_failure() {
    for error in [AppError::ParseError, AppError::IndexError, AppError::IoError(IoFailure::Other)] {
        assert!(!error.is_benign());
        assert_eq!(settle(Err(error)), Err(error));
        assert_eq!(exit_status(Err(error)), EXIT_FAILURE);
    }
    assert_eq!(settle(Ok(())), Ok(()));
    assert_eq!(EXIT_CLEAN, 0);
    assert_ne!(EXIT_FAILURE, 0);
}

#[test]
fn the_output_can_be_read_again() {
    let lines = ["a\t1.0\tx", "b\t2.0", "c\t7.0\t\t"];
    let settings = Density { verbose: false, field_pos: 1, percentage: false };
    let first = run(&lines, &settings).unwrap();
    let again = settings.ingest(first.clone()).unwrap();
    assert_eq!(again.len(), lines.len());
    for i in 0..lines.len() {
        assert_eq!(again.get(i).line(), first[i]);
        assert_eq!(again.get(i).weight(), ["1.0", "2.0", "7.0"][i]);
    }
    let second = emit(&again, &columns_of(&again, &settings));
    assert_eq!(second[0], "a\t1.0\tx\t0.10000\t0.10000\t0.10000\t0.10000");
}
