//! The transaction history that pacman's log records.
use vstd::prelude::*;
use crate::style::{bold, green, red, styled, yellow, colored, Color};
use crate::text::{
    after_char, after_char_str, before_char, before_char_str, cat, contains, contains_str,
    copy_str, dec, lemma_strs_push, lex_lt, pad_left, pad_left_str, parse_usize, parse_usize_spec,
    second_field, second_field_str, split_lines, str_eq, str_lt, strip_leading, strip_leading_str,
    strs, trim, trim_str, u64_to_dec, lines_of,
};

verus! {

/// The log lines that libalpm itself wrote.
pub open spec fn alpm_lines(ls: Seq<Seq<char>>) -> Seq<Seq<char>>
    decreases ls.len(),
{
    if ls.len() == 0 {
        Seq::empty()
    } else if contains(ls[0], "[ALPM]"@) {
        seq![ls[0]] + alpm_lines(ls.drop_first())
    } else {
        alpm_lines(ls.drop_first())
    }
}

/// A line that starts a transaction.
pub open spec fn is_start(l: Seq<char>) -> bool {
    contains(l, "transaction started"@)
}

/// The lines of `es` that start a transaction.
pub open spec fn starts(es: Seq<Seq<char>>) -> Seq<Seq<char>>
    decreases es.len(),
{
    if es.len() == 0 {
        Seq::empty()
    } else if is_start(es[0]) {
        seq![es[0]] + starts(es.drop_first())
    } else {
        starts(es.drop_first())
    }
}

/// The time stamp of a log line: what stands between its opening brackets
/// and the first `]`.
pub open spec fn stamp(l: Seq<char>) -> Seq<char> {
    before_char(strip_leading(l, '['), ']')
}

/// The day of a log line: its time stamp up to the `T`.
pub open spec fn day(l: Seq<char>) -> Seq<char> {
    before_char(strip_leading(l, '['), 'T')
}

/// The line that lists transaction number `n`.
pub open spec fn listing_line(n: nat, l: Seq<char>, plain: bool) -> Seq<char> {
    " "@ + styled(pad_left(dec(n), 3), "\x1b[1m"@, plain) + "  "@ + styled(
        stamp(l),
        "\x1b[2m"@,
        plain,
    ) + " "@ + second_field(l, "[ALPM] "@)
}

/// The transactions of `es` numbered from `count + 1`, with an empty line
/// between days; `prev` is the day of the line before.
pub open spec fn listing(es: Seq<Seq<char>>, count: nat, prev: Seq<char>, plain: bool) -> Seq<
    Seq<char>,
>
    decreases es.len(),
{
    if es.len() == 0 {
        Seq::empty()
    } else {
        let l = es[0];
        let d = day(l);
        let sep = if d != prev && prev.len() > 0 {
            seq![Seq::<char>::empty()]
        } else {
            Seq::<Seq<char>>::empty()
        };
        if is_start(l) {
            sep + seq![listing_line(count + 1, l, plain)] + listing(
                es.drop_first(),
                count + 1,
                d,
                plain,
            )
        } else {
            sep + listing(es.drop_first(), count, d, plain)
        }
    }
}

/// What the history shows without a transaction number.
pub open spec fn summary_spec(es: Seq<Seq<char>>, plain: bool) -> Seq<Seq<char>> {
    let n = starts(es).len();
    listing(es, 0, Seq::empty(), plain) + seq![
        Seq::empty(),
        " "@ + colored("✓"@, Color::Green, plain) + " "@ + dec(n) + " in history"@,
    ] + if n > 0 {
        seq!["  run 'waka history -i <id>' for details"@]
    } else {
        Seq::empty()
    }
}

/// The lines of transaction `txn`: from `txn` on, up to the start of the
/// next transaction; each shown after its time stamp.
pub open spec fn detail_lines(es: Seq<Seq<char>>, txn: Seq<char>) -> Seq<Seq<char>>
    decreases es.len(),
{
    if es.len() == 0 {
        Seq::empty()
    } else {
        let l = es[0];
        if contains(l, "[ALPM]"@) && !lex_lt(l, txn) {
            if is_start(l) && l != txn {
                Seq::empty()
            } else {
                seq![
                    " "@ + trim(
                        match after_char(strip_leading(l, '['), ']') {
                            Some(t) => t,
                            None => Seq::empty(),
                        },
                    ),
                ] + detail_lines(es.drop_first(), txn)
            }
        } else {
            detail_lines(es.drop_first(), txn)
        }
    }
}

/// What the history shows for the transaction numbered `tid`, or the error
/// message for a number that is not valid or out of range.
pub open spec fn details_spec(es: Seq<Seq<char>>, tid: Seq<char>, plain: bool) -> Result<
    Seq<Seq<char>>,
    Seq<char>,
> {
    let txns = starts(es);
    match parse_usize_spec(tid) {
        None => Err(
            " "@ + colored("error"@, Color::Red, plain) + ": '"@ + tid
                + "' is not a valid transaction number"@,
        ),
        Some(idx) => if idx == 0 || idx > txns.len() {
            Err(
                " "@ + colored("error"@, Color::Red, plain) + " transaction id out of range (1-"@
                    + dec(txns.len()) + ")"@,
            )
        } else {
            let txn = txns[idx - 1];
            Ok(
                seq![
                    " "@ + styled("Transaction"@, "\x1b[1m"@, plain) + " "@ + dec(idx as nat),
                    " "@ + styled(stamp(txn), "\x1b[2m"@, plain),
                ] + detail_lines(es, txn),
            )
        },
    }
}

/// A number that the listing shows opens that transaction: for `k` from one
/// to the number of transactions, the details of `k` are its header, its
/// time stamp and its lines.
pub proof fn lemma_listed_number_opens(es: Seq<Seq<char>>, k: nat, plain: bool)
    requires
        1 <= k <= starts(es).len(),
        k <= usize::MAX,
    ensures
        details_spec(es, dec(k), plain) == Ok::<Seq<Seq<char>>, Seq<char>>(
            seq![
                " "@ + styled("Transaction"@, "\x1b[1m"@, plain) + " "@ + dec(k),
                " "@ + styled(stamp(starts(es)[k - 1]), "\x1b[2m"@, plain),
            ] + detail_lines(es, starts(es)[k - 1]),
        ),
{
    crate::text::lemma_parse_dec(k, usize::MAX as nat);
}

/// The libalpm lines of a log.
pub fn alpm_entries(content: &str) -> (r: Vec<String>)
    ensures
        strs(r@) == alpm_lines(lines_of(content@)),
{
    let ls = split_lines(content);
    let ghost lv = lines_of(content@);
    assert(strs(ls@) =~= lv);
    let mut r: Vec<String> = Vec::new();
    let mut i: usize = 0;
    assert(lv.skip(0) =~= lv);
    assert(strs(r@) + alpm_lines(lv) =~= alpm_lines(lv));
    while i < ls.len()
        invariant
            strs(ls@) == lv,
            i <= ls@.len(),
            strs(r@) + alpm_lines(lv.skip(i as int)) == alpm_lines(lv),
        decreases ls@.len() - i,
    {
        let ghost rest = lv.skip(i as int);
        assert(rest[0] == ls@[i as int]@);
        assert(rest.drop_first() =~= lv.skip(i + 1));
        if contains_str(ls[i].as_str(), "[ALPM]") {
            let l = ls[i].clone();
            proof {
                lemma_strs_push(r@, l);
            }
            assert(strs(r@).push(l@) + alpm_lines(lv.skip(i + 1)) =~= strs(r@) + (seq![rest[0]]
                + alpm_lines(rest.drop_first())));
            r.push(l);
        }
        i = i + 1;
    }
    assert(lv.skip(i as int) =~= Seq::<Seq<char>>::empty());
    assert(strs(r@) + Seq::<Seq<char>>::empty() =~= strs(r@));
    r
}

/// The lines that start transactions.
pub fn transaction_starts(es: &Vec<String>) -> (r: Vec<String>)
    ensures
        strs(r@) == starts(strs(es@)),
{
    let ghost ev = strs(es@);
    let mut r: Vec<String> = Vec::new();
    let mut i: usize = 0;
    assert(ev.skip(0) =~= ev);
    assert(strs(r@) + starts(ev) =~= starts(ev));
    while i < es.len()
        invariant
            ev == strs(es@),
            i <= es@.len(),
            strs(r@) + starts(ev.skip(i as int)) == starts(ev),
        decreases es@.len() - i,
    {
        let ghost rest = ev.skip(i as int);
        assert(rest[0] == es@[i as int]@);
        assert(rest.drop_first() =~= ev.skip(i + 1));
        if contains_str(es[i].as_str(), "transaction started") {
            let l = es[i].clone();
            proof {
                lemma_strs_push(r@, l);
            }
            assert(strs(r@).push(l@) + starts(ev.skip(i + 1)) =~= strs(r@) + (seq![rest[0]]
                + starts(rest.drop_first())));
            r.push(l);
        }
        i = i + 1;
    }
    assert(ev.skip(i as int) =~= Seq::<Seq<char>>::empty());
    assert(strs(r@) + Seq::<Seq<char>>::empty() =~= strs(r@));
    r
}

/// The time stamp of a log line.
pub fn stamp_of(l: &str) -> (r: String)
    ensures
        r@ == stamp(l@),
{
    before_char_str(strip_leading_str(l, '[').as_str(), ']')
}

/// The history listing, without a transaction number.
pub fn history_summary(es: &Vec<String>, plain: bool) -> (r: Vec<String>)
    ensures
        strs(r@) == summary_spec(strs(es@), plain),
{
    let ghost ev = strs(es@);
    let mut r: Vec<String> = Vec::new();
    let mut count: u64 = 0;
    let mut prev = String::new();
    let mut i: usize = 0;
    assert(ev.skip(0) =~= ev);
    assert(ev.take(0) =~= Seq::<Seq<char>>::empty());
    assert(strs(r@) + listing(ev, 0, Seq::empty(), plain) =~= listing(ev, 0, Seq::empty(), plain));
    while i < es.len()
        invariant
            ev == strs(es@),
            i <= es@.len(),
            count <= i,
            strs(r@) + listing(ev.skip(i as int), count as nat, prev@, plain) == listing(
                ev,
                0,
                Seq::empty(),
                plain,
            ),
            count as nat + starts(ev.skip(i as int)).len() == starts(ev).len(),
        decreases es@.len() - i,
    {
        let ghost rest = ev.skip(i as int);
        let l = es[i].as_str();
        assert(rest[0] == l@);
        assert(rest.drop_first() =~= ev.skip(i + 1));
        let d = before_char_str(strip_leading_str(l, '[').as_str(), 'T');
        let ghost before = strs(r@);
        let ghost prev_old = prev@;
        let ghost count_old = count;
        let ghost sepv = if day(l@) != prev_old && prev_old.len() > 0 {
            seq![Seq::<char>::empty()]
        } else {
            Seq::<Seq<char>>::empty()
        };
        if !str_eq(d.as_str(), prev.as_str()) {
            if !prev.as_str().is_empty() {
                let e = String::new();
                proof {
                    lemma_strs_push(r@, e);
                }
                r.push(e);
            }
            prev = d;
        }
        assert(strs(r@) =~= before + sepv);
        assert(prev@ == day(l@));
        if contains_str(l, "transaction started") {
            count = count + 1;
            let mut line = copy_str(" ");
            line.append(bold(pad_left_str(u64_to_dec(count).as_str(), 3).as_str(), plain).as_str());
            line.append("  ");
            line.append(crate::style::dim(stamp_of(l).as_str(), plain).as_str());
            line.append(" ");
            line.append(second_field_str(l, "[ALPM] ").as_str());
            assert(line@ =~= listing_line(count as nat, l@, plain));
            proof {
                lemma_strs_push(r@, line);
            }
            r.push(line);
            assert(strs(r@) + listing(ev.skip(i + 1), count as nat, prev@, plain) =~= before
                + listing(rest, count_old as nat, prev_old, plain));
        } else {
            assert(strs(r@) + listing(ev.skip(i + 1), count as nat, prev@, plain) =~= before
                + listing(rest, count_old as nat, prev_old, plain));
        }
        i = i + 1;
    }
    assert(ev.skip(i as int) =~= Seq::<Seq<char>>::empty());
    assert(strs(r@) + Seq::<Seq<char>>::empty() =~= strs(r@));
    let e = String::new();
    proof {
        lemma_strs_push(r@, e);
    }
    r.push(e);
    let mut last = copy_str(" ");
    last.append(green("✓", plain).as_str());
    last.append(" ");
    last.append(u64_to_dec(count).as_str());
    last.append(" in history");
    proof {
        lemma_strs_push(r@, last);
    }
    r.push(last);
    if count > 0 {
        let hint = copy_str("  run 'waka history -i <id>' for details");
        proof {
            lemma_strs_push(r@, hint);
        }
        r.push(hint);
    }
    proof {
        reveal_strlit("");
    }
    r
}

/// The lines of the transaction that `txn` starts.
pub fn transaction_lines(es: &Vec<String>, txn: &str) -> (r: Vec<String>)
    ensures
        strs(r@) == detail_lines(strs(es@), txn@),
{
    let ghost ev = strs(es@);
    let mut r: Vec<String> = Vec::new();
    let mut i: usize = 0;
    assert(ev.skip(0) =~= ev);
    assert(strs(r@) + detail_lines(ev, txn@) =~= detail_lines(ev, txn@));
    while i < es.len()
        invariant
            ev == strs(es@),
            i <= es@.len(),
            strs(r@) + detail_lines(ev.skip(i as int), txn@) == detail_lines(ev, txn@),
        decreases es@.len() - i,
    {
        let ghost rest = ev.skip(i as int);
        let l = es[i].as_str();
        assert(rest[0] == l@);
        assert(rest.drop_first() =~= ev.skip(i + 1));
        if contains_str(l, "[ALPM]") && !str_lt(l, txn) {
            if contains_str(l, "transaction started") && !str_eq(l, txn) {
                assert(strs(r@) + Seq::<Seq<char>>::empty() =~= strs(r@));
                return r;
            }
            let body = match after_char_str(strip_leading_str(l, '[').as_str(), ']') {
                Some(t) => t,
                None => String::new(),
            };
            let line = cat(" ", trim_str(body.as_str()).as_str());
            proof {
                lemma_strs_push(r@, line);
            }
            assert(strs(r@).push(line@) + detail_lines(ev.skip(i + 1), txn@) =~= strs(r@) + (seq![
                line@,
            ] + detail_lines(rest.drop_first(), txn@)));
            r.push(line);
        }
        i = i + 1;
    }
    assert(ev.skip(i as int) =~= Seq::<Seq<char>>::empty());
    assert(strs(r@) + Seq::<Seq<char>>::empty() =~= strs(r@));
    r
}

/// The history of one transaction, numbered from one as the listing
/// numbers them, or the message for a number that is not valid.
pub fn history_details(es: &Vec<String>, tid: &str, plain: bool) -> (r: Result<Vec<String>, String>)
    ensures
        match r {
            Ok(ls) => details_spec(strs(es@), tid@, plain) == Ok::<Seq<Seq<char>>, Seq<char>>(strs(ls@)),
            Err(e) => details_spec(strs(es@), tid@, plain) == Err::<Seq<Seq<char>>, Seq<char>>(e@),
        },
{
    let txns = transaction_starts(es);
    let idx = match parse_usize(tid) {
        Some(n) => n,
        None => {
            let mut e = cat(" ", red("error", plain).as_str());
            e.append(": '");
            e.append(tid);
            e.append("' is not a valid transaction number");
            return Err(e);
        },
    };
    if idx == 0 || idx > txns.len() {
        let mut e = cat(" ", red("error", plain).as_str());
        e.append(" transaction id out of range (1-");
        e.append(u64_to_dec(txns.len() as u64).as_str());
        e.append(")");
        return Err(e);
    }
    let txn = txns[idx - 1].as_str();
    let mut r: Vec<String> = Vec::new();
    let mut head = cat(" ", bold("Transaction", plain).as_str());
    head.append(" ");
    head.append(u64_to_dec(idx as u64).as_str());
    r.push(head);
    let time = cat(" ", crate::style::dim(stamp_of(txn).as_str(), plain).as_str());
    r.push(time);
    let rest = transaction_lines(es, txn);
    let mut k: usize = 0;
    let ghost head2 = strs(r@);
    while k < rest.len()
        invariant
            k <= rest@.len(),
            strs(r@) == head2 + strs(rest@).take(k as int),
        decreases rest@.len() - k,
    {
        proof {
            lemma_strs_push(r@, rest@[k as int]);
        }
        assert(strs(rest@).take(k + 1) =~= strs(rest@).take(k as int).push(rest@[k as int]@));
        r.push(rest[k].clone());
        k = k + 1;
    }
    assert(strs(rest@).take(k as int) =~= strs(rest@));
    assert(strs(r@) =~= seq![head@, time@] + strs(rest@));
    Ok(r)
}

/// What the history command prints, on standard output and on standard
/// error.
pub struct HistoryReport {
    pub out: Vec<String>,
    pub err: Vec<String>,
}

/// The output of the history command for a log, with or without a
/// transaction number.
pub open spec fn history_spec(content: Seq<char>, id: Option<Seq<char>>, plain: bool) -> (Seq<Seq<char>>, Seq<Seq<char>>) {
    let es = alpm_lines(lines_of(content));
    if es.len() == 0 {
        (Seq::empty(), seq![" "@ + colored("warn"@, Color::Yellow, plain) + " no transaction history found"@])
    } else {
        match id {
            Some(tid) => match details_spec(es, tid, plain) {
                Ok(ls) => (ls, Seq::empty()),
                Err(e) => (Seq::empty(), seq![e]),
            },
            None => (summary_spec(es, plain), Seq::empty()),
        }
    }
}

/// The output of the history command for the contents of pacman's log.
pub fn history_report(content: &str, id: Option<&str>, plain: bool) -> (r: HistoryReport)
    ensures
        (strs(r.out@), strs(r.err@)) == history_spec(content@, match id { Some(t) => Some(t@), None => None }, plain),
{
    let es = alpm_entries(content);
    let mut out: Vec<String> = Vec::new();
    let mut err: Vec<String> = Vec::new();
    assert(strs(out@) =~= Seq::<Seq<char>>::empty());
    if es.len() == 0 {
        let mut w = cat(" ", yellow("warn", plain).as_str());
        w.append(" no transaction history found");
        err.push(w);
        assert(strs(err@) =~= seq![w@]);
        return HistoryReport { out, err };
    }
    match id {
        Some(tid) => match history_details(&es, tid, plain) {
            Ok(ls) => {
                assert(strs(err@) =~= Seq::<Seq<char>>::empty());
                HistoryReport { out: ls, err }
            },
            Err(e) => {
                err.push(e);
                assert(strs(err@) =~= seq![e@]);
                HistoryReport { out, err }
            },
        },
        None => {
            assert(strs(err@) =~= Seq::<Seq<char>>::empty());
            HistoryReport { out: history_summary(&es, plain), err }
        },
    }
}

} // verus!
