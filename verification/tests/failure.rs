use log_archiver::failure::{Failure, FAILURE_EXIT_CODE, SUCCESS_EXIT_CODE};

#[test]
fn message_of_a_name_that_does_not_match() {
    let failure = Failure::UnparseableFilename { name: "README.md".to_string() };
    assert_eq!(failure.message(), "not parsing format \"README.md\" - use `--safe-parsing`");
}

#[test]
fn message_of_a_failure_on_the_file_system() {
    let detail = "No such file or directory (os error 2)".to_string();
    let expected = "Error: `No such file or directory (os error 2)`";
    assert_eq!(Failure::DirectoryUnreadable { detail: detail.clone() }.message(), expected);
    assert_eq!(Failure::ArchiveCreateFailed { detail: detail.clone() }.message(), expected);
    assert_eq!(Failure::ArchiveWriteFailed { detail: detail.clone() }.message(), expected);
    assert_eq!(Failure::SourceReadFailed { detail }.message(), expected);
}

#[test]
fn clone_failure_copies_every_variant() {
    let all = vec![
        Failure::DirectoryUnreadable { detail: "a".to_string() },
        Failure::UnparseableFilename { name: "b".to_string() },
        Failure::ArchiveCreateFailed { detail: "c".to_string() },
        Failure::ArchiveWriteFailed { detail: "d".to_string() },
        Failure::SourceReadFailed { detail: "e".to_string() },
    ];
    for failure in all.iter() {
        assert_eq!(&failure.clone_failure(), failure);
    }
}

#[test]
fn exit_codes() {
    assert_eq!(SUCCESS_EXIT_CODE, 0);
    assert_eq!(FAILURE_EXIT_CODE, 1);
}
