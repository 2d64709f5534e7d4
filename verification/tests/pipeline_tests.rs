use metapurge::errors::{ArchiveFault, PurgeErr, ToUser, UISideErr};
use metapurge::paths::DataPaths;
use metapurge::pipeline::{extension_of, BatchLedger, DocumentType, PipelineMessage,
    ShutdownHandshake, UnitOutcome};

const PNG_SIG: [u8; 8] = [0x89, 0x50, 0x4e, 0x47, 0x0d, 0x0a, 0x1a, 0x0a];

fn good_png_bytes() -> Vec<u8> {
    let mut data = PNG_SIG.to_vec();
    data.extend_from_slice(&[0, 0, 0, 13, b'I', b'H', b'D', b'R', 1, 1, 1, 1]);
    data
}

#[test]
fn extension_is_taken_after_last_dot() {
    assert_eq!(extension_of("dir/report.final.pdf"), "pdf");
    assert_eq!(extension_of("a.png"), "png");
    assert_eq!(extension_of("noext"), "");
    assert_eq!(extension_of("trailing."), "");
}

#[test]
fn supported_extensions_are_exactly_six() {
    for ext in ["pdf", "docx", "xlsx", "png", "jpeg", "jpg"] {
        assert!(DataPaths::is_supported(ext));
    }
    for ext in ["PDF", "txt", "pngx", ""] {
        assert!(!DataPaths::is_supported(ext));
    }
}

#[test]
fn paths_derive_the_temp_name() {
    let paths = DataPaths::new(String::from("dir/a.png"));
    assert_eq!(paths.old_ref(), "dir/a.png");
    assert_eq!(paths.old_owned(), "dir/a.png");
    assert_eq!(paths.temp(), "dir/a.png_temp");
    assert_eq!(paths.temp_owned(), "dir/a.png_temp");
}

#[test]
fn instantiate_picks_the_engine_by_extension() {
    let unit = DataPaths::new(String::from("a.png")).instantiate();
    assert!(matches!(unit, DocumentType::Png(_)));
    let unit = DataPaths::new(String::from("a.jpg")).instantiate();
    assert!(matches!(unit, DocumentType::Jpg(_)));
    let unit = DataPaths::new(String::from("a.jpeg")).instantiate();
    assert!(matches!(unit, DocumentType::Jpg(_)));
    let unit = DataPaths::new(String::from("a.docx")).instantiate();
    assert!(matches!(unit, DocumentType::MsOX(_)));
    let unit = DataPaths::new(String::from("a.xlsx")).instantiate();
    assert!(matches!(unit, DocumentType::MsOX(_)));
    let unit = DataPaths::new(String::from("a.pdf")).instantiate();
    assert!(matches!(unit, DocumentType::Pdf(_)));
    assert_eq!(unit.file_name(), "a.pdf");
}

#[test]
fn batch_with_one_malformed_file_yields_one_error() {
    // Three files: a sound PNG, a PNG with a broken signature, a sound JPEG.
    let inputs: Vec<(String, Vec<u8>)> = vec![
        (String::from("one.png"), good_png_bytes()),
        (String::from("two.png"), vec![0u8; 32]),
        (String::from("three.jpg"), vec![0xff, 0xd8, 0x00, 0x11, 0xff, 0xd9]),
    ];
    let mut ledger = BatchLedger::new(inputs.len());
    for (i, (path, bytes)) in inputs.into_iter().enumerate() {
        let mut unit = DataPaths::new(path).instantiate();
        let context = unit.file_name();
        if let Err(e) = unit.load_bytes(bytes) {
            ledger.record_error(i, e.to_user(context));
            continue;
        }
        match unit.process() {
            Ok(done) => {
                let _committed = done.into_data().unwrap();
                ledger.record_finalized(i);
            }
            Err(e) => ledger.record_error(i, e.to_user(context)),
        }
    }
    assert_eq!(ledger.errors.len(), 1);
    assert_eq!(ledger.errors[0].path, "two.png");
    assert_eq!(ledger.errors[0].info, "not png");
    assert_eq!(ledger.outcomes[0], Some(UnitOutcome::Finalized));
    assert_eq!(ledger.outcomes[1], Some(UnitOutcome::Failed));
    assert_eq!(ledger.outcomes[2], Some(UnitOutcome::Finalized));
}

#[test]
fn ledger_counts_every_unit_once() {
    let mut ledger = BatchLedger::new(2);
    assert_eq!(ledger.outcomes, vec![None, None]);
    ledger.record_finalized(1);
    ledger.record_error(
        0,
        UISideErr { path: String::from("p"), info: String::from("i") },
    );
    assert_eq!(ledger.errors.len(), 1);
    assert_eq!(ledger.outcomes[0], Some(UnitOutcome::Failed));
    assert_eq!(ledger.outcomes[1], Some(UnitOutcome::Finalized));
}

#[test]
fn handshake_lets_compute_finish_only_after_the_flag() {
    let mut hs = ShutdownHandshake::new();
    assert!(!hs.compute_finished);
    hs.compute_observe_sentinel();
    hs.io_enqueue_complete();
    hs.compute_finish();
    assert!(hs.compute_finished && hs.enqueue_complete && hs.compute_saw_sentinel);
}

#[test]
fn messages_carry_units_or_the_sentinel() {
    let unit = DataPaths::new(String::from("m.png")).instantiate();
    let msg = PipelineMessage::Unit(unit);
    match msg {
        PipelineMessage::Unit(u) => assert_eq!(u.file_name(), "m.png"),
        PipelineMessage::EndOfBatch => panic!("wrong message"),
    }
    assert!(matches!(PipelineMessage::EndOfBatch, PipelineMessage::EndOfBatch));
}

#[test]
fn errors_render_for_the_user() {
    let err = PurgeErr::DocumentParseError;
    let shown: UISideErr = err.to_user(String::from("x.pdf"));
    assert_eq!(shown.path, "x.pdf");
    assert_eq!(shown.info, "Error parsing pdf");
    let line = shown.ui_show();
    assert_eq!(
        line,
        "Failed to clean file at x.pdf .\n Reason: Error parsing pdf \n"
    );
}

#[test]
fn prepared_error_text_names_the_file() {
    let shown = UISideErr { path: String::from("y.docx"), info: String::from("Invalid archive") };
    assert_eq!(
        shown.prepare(),
        "File at y.docx was not processed due to: Invalid archive "
    );
}

#[test]
fn io_and_channel_errors_carry_their_messages() {
    let io = PurgeErr::IoError(String::from("permission denied"));
    assert_eq!(io.to_user(String::from("f.png")).info, "permission denied");
    let chan = PurgeErr::ChannelError(String::from("peer exited"));
    assert_eq!(chan.to_user(String::from("f.png")).info, "peer exited");
}

#[test]
fn archive_fault_texts_match_the_zip_conditions() {
    let cases = [
        (ArchiveFault::Io, "I/O error"),
        (ArchiveFault::Invalid, "Invalid archive"),
        (ArchiveFault::Unsupported, "Unsupported archive"),
        (ArchiveFault::NotFound, "File not found"),
    ];
    for (fault, expected) in cases {
        let shown = PurgeErr::ArchiveError(fault).to_user(String::from("f"));
        assert_eq!(shown.info, expected);
    }
}
