use emu_check::{
    check_file_counts, correction_data_set_load_data, data_file_kind, load_data, pair_tables,
    read_fda_table, read_of_table, DataFile, DataFileKind, Decimal, EmuError,
};

fn dec(x: f64) -> Decimal {
    Decimal::from_units((x * 1e9).round() as i64)
}

fn file(name: &str, content: &str) -> DataFile {
    DataFile {
        name: name.to_string(),
        content: content.as_bytes().to_vec(),
    }
}

fn of_text(machine: &str, applicator: &str, energies: &str) -> String {
    format!(
        "{},,,,\nApplicator,{},,,\nDimensions,id,{}\n95,,0.9,1.0,1.1\n100,,0.8,0.9,1.0\n",
        machine, applicator, energies
    )
}

fn fda_text(machine: &str, applicator: &str, energies: &str) -> String {
    format!(
        "{},,,,\nApplicator,{},,,\nDimensions,id,{}\nsmall,1,1.0,1.0,0.5\nlarge,2,1.0,1.0,0.25\n",
        machine, applicator, energies
    )
}

#[test]
fn files_are_told_apart_by_their_names() {
    assert_eq!(data_file_kind("of_6x6.csv"), DataFileKind::OutputFactors);
    assert_eq!(data_file_kind("of_"), DataFileKind::OutputFactors);
    assert_eq!(data_file_kind("fda_6x6.csv"), DataFileKind::Apertures);
    assert_eq!(data_file_kind("fda_"), DataFileKind::Apertures);
    assert_eq!(data_file_kind("of"), DataFileKind::Other);
    assert_eq!(data_file_kind("fda"), DataFileKind::Other);
    assert_eq!(data_file_kind("OF_6x6.csv"), DataFileKind::Other);
    assert_eq!(data_file_kind("readme.txt"), DataFileKind::Other);
    assert_eq!(data_file_kind(""), DataFileKind::Other);
    assert_eq!(data_file_kind("x_of_6x6.csv"), DataFileKind::Other);
    assert_eq!(data_file_kind("\u{e9}of_"), DataFileKind::Other);
    assert_eq!(data_file_kind("of_\u{e9}"), DataFileKind::OutputFactors);
}

#[test]
fn file_counts() {
    assert_eq!(check_file_counts(0, 0), Ok(()));
    assert_eq!(check_file_counts(3, 3), Ok(()));
    assert_eq!(
        check_file_counts(2, 3),
        Err(EmuError::CountMismatch {
            of_files: 2,
            fda_files: 3
        })
    );
}

#[test]
fn unequal_numbers_of_files_fail_before_anything_is_read() {
    let files = vec![
        file("of_a.csv", "not, a\ncalibration file"),
        file("of_b.csv", &of_text("M", "A", "4,6,8")),
        file("fda_a.csv", "\u{0}"),
        file("notes.txt", "of no interest"),
    ];
    assert_eq!(
        load_data(&files).err(),
        Some(EmuError::CountMismatch {
            of_files: 2,
            fda_files: 1
        })
    );
}

#[test]
fn a_directory_is_loaded() {
    let files = vec![
        file("fda_b.csv", &fda_text("M", "B", "8,6,4")),
        file("of_a.csv", &of_text("M", "A", "4,6,8")),
        file("readme.txt", "nothing"),
        file("fda_a.csv", &fda_text("M", "A", "4,6,8")),
        file("of_b.csv", &of_text("M", "B", "4,6,8")),
    ];
    let vcd = load_data(&files).unwrap();
    assert_eq!(vcd.len(), 2);
    assert_eq!(vcd[0].machine, "M");
    assert_eq!(vcd[0].applicator, "A");
    assert_eq!(vcd[1].applicator, "B");
    assert!(vcd[0].validate());
    assert!(vcd[1].validate());
    // 0.9 + 0.4 * (0.8 - 0.9) = 0.86, times 1.0
    assert_eq!(
        vcd[0].get_correction_factor(dec(4.0), dec(97.0), 1),
        Ok(dec(0.86))
    );
    // in the second aperture file the columns stand in another order
    assert_eq!(
        vcd[1].get_correction_factor(dec(4.0), dec(97.0), 1),
        Ok(dec(0.43))
    );
    assert_eq!(
        vcd[1].get_correction_factor(dec(8.0), dec(100.0), 2),
        Ok(dec(1.0))
    );
    let set = correction_data_set_load_data(&files).unwrap();
    assert_eq!(set.entries().len(), 2);
    assert_eq!(set.get_machines(), vec!["M"]);
}

#[test]
fn tables_that_disagree_on_their_energies_end_the_load() {
    let files = vec![
        file("of_a.csv", &of_text("M", "A", "4,6,8")),
        file("fda_a.csv", &fda_text("M", "A", "4,6,10")),
    ];
    assert_eq!(
        load_data(&files).err(),
        Some(EmuError::TableMismatch("M".to_string(), "A".to_string()))
    );
    let files = vec![
        file("of_a.csv", &of_text("M", "A", "4,6,8")),
        file("fda_a.csv", &fda_text("M", "B", "4,6,8")),
    ];
    assert_eq!(
        load_data(&files).err(),
        Some(EmuError::TableMismatch("M".to_string(), "A".to_string()))
    );
}

#[test]
fn the_first_aperture_table_that_belongs_is_taken() {
    let of = vec![read_of_table(of_text("M", "A", "4,6,8").as_bytes()).unwrap()];
    let fda = vec![
        read_fda_table(fda_text("M", "A", "4,6,10").as_bytes()).unwrap(),
        read_fda_table(fda_text("M", "A", "4,6,8").as_bytes()).unwrap(),
        read_fda_table(
            "M,,,,\nApplicator,A,,,\nDimensions,id,4,6,8\nother,7,2,2,2\n".as_bytes(),
        )
        .unwrap(),
    ];
    let vcd = pair_tables(&of, &fda).unwrap();
    assert_eq!(vcd.len(), 1);
    assert_eq!(vcd[0].fda.get_ids(), &vec![1, 2]);
}

#[test]
fn a_machine_and_applicator_twice_is_ambiguous() {
    let files = vec![
        file("of_a.csv", &of_text("M", "A", "4,6,8")),
        file("of_b.csv", &of_text("M", "A", "4,6,8")),
        file("fda_a.csv", &fda_text("M", "A", "4,6,8")),
        file("fda_b.csv", &fda_text("M", "A", "4,6,8")),
    ];
    assert_eq!(
        load_data(&files).err(),
        Some(EmuError::AmbiguousMatch("M".to_string(), "A".to_string()))
    );
}

#[test]
fn no_files_give_no_result() {
    assert_eq!(load_data(&vec![]).err(), Some(EmuError::EmptyResult));
    let files = vec![file("readme.txt", "nothing")];
    assert_eq!(load_data(&files).err(), Some(EmuError::EmptyResult));
    assert_eq!(
        pair_tables(&vec![], &vec![]).err(),
        Some(EmuError::EmptyResult)
    );
}

#[test]
fn a_file_that_cannot_be_read_ends_the_load() {
    let files = vec![
        file("of_a.csv", &of_text("M", "A", "4,6,8")),
        file("of_b.csv", "M,,\nApplicator,B,\nDimensions,id,four\n"),
        file("fda_a.csv", "M,,\nApplikator,B,\n"),
        file("fda_b.csv", &fda_text("M", "B", "4,6,8")),
    ];
    assert_eq!(
        load_data(&files).err(),
        Some(EmuError::Format(
            "Expected a number on row 2, column 2".to_string()
        ))
    );
    let files = vec![
        file("of_a.csv", &of_text("M", "A", "4,6,8")),
        file("fda_a.csv", "M,,\nApplikator,B,\n"),
    ];
    assert_eq!(
        load_data(&files).err(),
        Some(EmuError::Format(
            "Expected the label 'Applicator' on row 1, column 0".to_string()
        ))
    );
    let files = vec![
        file("of_a.csv", &of_text("M", "A", "4,6,8")),
        file(
            "fda_a.csv",
            "M,,,\nApplicator,A,,\nDimensions,id,4,6\nsmall,1,1,1\nlarge,1,1,1\n",
        ),
    ];
    assert_eq!(load_data(&files).err(), Some(EmuError::DuplicateId(1)));
    let files = vec![
        DataFile {
            name: "of_a.csv".to_string(),
            content: vec![0xc3, 0x28],
        },
        file("fda_a.csv", &fda_text("M", "A", "4,6,8")),
    ];
    assert!(matches!(load_data(&files), Err(EmuError::IO(_))));
}

#[test]
fn the_failure_of_a_file_is_the_failure_of_the_load() {
    let broken = "M,,,\nApplicator,A,,\nDimensions,id,4,6\n95,,0.9\n";
    let own = read_of_table(broken.as_bytes()).err();
    assert_eq!(
        own,
        Some(EmuError::Format(
            "Expected 4 columns on row 3, found 3".to_string()
        ))
    );
    // wherever the file stands among the others, and whatever they hold
    for at in 0..3 {
        let mut files = vec![
            file("of_a.csv", &of_text("M", "A", "4,6,8")),
            file("fda_a.csv", &fda_text("M", "A", "4,6,8")),
            file("fda_b.csv", &fda_text("M", "B", "4,6,8")),
        ];
        files.insert(at, file("of_b.csv", broken));
        assert_eq!(load_data(&files).err(), own);
        assert_eq!(correction_data_set_load_data(&files).err(), own);
    }
}
