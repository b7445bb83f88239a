use waka::history::{alpm_entries, history_report, stamp_of, transaction_starts};

const LOG: &str = "[2024-05-01T10:00:00+0000] [PACMAN] Running 'pacman -Syu'\n\
[2024-05-01T10:00:01+0000] [ALPM] transaction started\n\
[2024-05-01T10:00:02+0000] [ALPM] upgraded vim (9.0-1 -> 9.1-1)\n\
[2024-05-01T10:00:03+0000] [ALPM] transaction completed\n\
[2024-05-02T09:00:00+0000] [ALPM] transaction started\n\
[2024-05-02T09:00:01+0000] [ALPM] installed htop (3.3-1)\n\
[2024-05-02T09:00:02+0000] [ALPM] transaction completed\n";

#[test]
fn history_keeps_alpm_lines() {
    let es = alpm_entries(LOG);
    assert_eq!(es.len(), 6);
    let starts = transaction_starts(&es);
    assert_eq!(starts.len(), 2);
    assert_eq!(stamp_of(&starts[1]), "2024-05-02T09:00:00+0000");
}

#[test]
fn history_summary_lists_transactions_by_day() {
    let r = history_report(LOG, None, true);
    assert!(r.err.is_empty());
    assert_eq!(
        r.out,
        vec![
            "   1  2024-05-01T10:00:01+0000 transaction started",
            "",
            "   2  2024-05-02T09:00:00+0000 transaction started",
            "",
            " ✓ 2 in history",
            "  run 'waka history -i <id>' for details",
        ]
    );
}

#[test]
fn history_details_of_one_transaction() {
    let r = history_report(LOG, Some("1"), true);
    assert!(r.err.is_empty());
    assert_eq!(
        r.out,
        vec![
            " Transaction 1",
            " 2024-05-01T10:00:01+0000",
            " [ALPM] transaction started",
            " [ALPM] upgraded vim (9.0-1 -> 9.1-1)",
            " [ALPM] transaction completed",
        ]
    );
    let last = history_report(LOG, Some("2"), true);
    assert_eq!(last.out.len(), 5);
    assert_eq!(last.out[4], " [ALPM] transaction completed");
}

#[test]
fn history_errors() {
    let r = history_report(LOG, Some("3"), true);
    assert!(r.out.is_empty());
    assert_eq!(r.err, vec![" error transaction id out of range (1-2)"]);
    let r = history_report(LOG, Some("0"), true);
    assert_eq!(r.err, vec![" error transaction id out of range (1-2)"]);
    let r = history_report(LOG, Some("x"), true);
    assert_eq!(r.err, vec![" error: 'x' is not a valid transaction number"]);
    let r = history_report("[2024] [PACMAN] nothing\n", None, true);
    assert!(r.out.is_empty());
    assert_eq!(r.err, vec![" warn no transaction history found"]);
}
