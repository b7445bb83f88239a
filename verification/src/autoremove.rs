//! Removal of orphaned packages: which packages go, and what is said
//! before the question whether to go on.
use vstd::prelude::*;
use crate::packages::{orphans, orphans_spec, Package};
use crate::sort::as_ints;
use crate::style::{bold, colored, dim, green, red, styled, yellow, Color};
use crate::summary::plural_spec;
use crate::table::plural;
use crate::text::{cat, copy_str, dec, u64_to_dec};

verus! {

/// A line of output, and whether it goes to standard error.
pub struct Message {
    pub to_err: bool,
    pub text: String,
}

/// The orphaned packages, by name and version, and what is printed before
/// the question.
pub struct AutoremovePlan {
    pub orphans: Vec<(String, String)>,
    pub messages: Vec<Message>,
}

/// The names and versions of the orphans among the installed packages.
pub open spec fn orphan_pairs(pkgs: Seq<Package>) -> Seq<(Seq<char>, Seq<char>)> {
    let idx = orphans_spec(pkgs, pkgs.len());
    Seq::new(idx.len(), |i: int| (pkgs[idx[i]].name@, pkgs[idx[i]].version@))
}

/// The warning that precedes the question.
pub open spec fn caution_line(plain: bool) -> Seq<char> {
    " "@ + colored("WARNING"@, Color::Red, plain) + " "@ + styled(
        "PROCEED WITH CAUTION"@,
        "\x1b[1m"@,
        plain,
    )
        + " This will remove orphaned packages. This action can delete critical dependencies if they are no longer required."@
}

/// What is printed for the orphans `ps`: that there are none, or how many
/// there are, each with its version, and the warning.
pub open spec fn autoremove_messages(ps: Seq<(Seq<char>, Seq<char>)>, plain: bool) -> Seq<(bool, Seq<char>)> {
    if ps.len() == 0 {
        seq![(false, " "@ + colored("\u{2713}"@, Color::Green, plain) + " no orphaned packages found"@)]
    } else {
        seq![
            (
                true,
                " "@ + colored("warn"@, Color::Yellow, plain) + " "@ + dec(ps.len()) + " "@ + plural_spec(
                    "orphaned package"@,
                    ps.len(),
                ),
            ),
        ] + Seq::new(
            ps.len(),
            |i: int|
                (
                    false,
                    "  "@ + colored(ps[i].0, Color::Red, plain) + " ("@ + styled(
                        ps[i].1,
                        "\x1b[2m"@,
                        plain,
                    ) + ")"@,
                ),
        ) + seq![(true, caution_line(plain))]
    }
}

/// The view of some messages.
pub open spec fn messages_view(ms: Seq<Message>) -> Seq<(bool, Seq<char>)> {
    Seq::new(ms.len(), |i: int| (ms[i].to_err, ms[i].text@))
}

/// The view of some name and version pairs.
pub open spec fn pairs_view(ps: Seq<(String, String)>) -> Seq<(Seq<char>, Seq<char>)> {
    Seq::new(ps.len(), |i: int| (ps[i].0@, ps[i].1@))
}

/// The orphans among the installed packages `local`, and what is printed
/// about them before the question whether to remove them.
pub fn run_autoremove(local: &Vec<Package>, plain: bool) -> (r: AutoremovePlan)
    ensures
        pairs_view(r.orphans@) == orphan_pairs(local@),
        messages_view(r.messages@) == autoremove_messages(orphan_pairs(local@), plain),
{
    let idx = orphans(local);
    let ghost want = orphan_pairs(local@);
    let mut pairs: Vec<(String, String)> = Vec::new();
    let mut i: usize = 0;
    while i < idx.len()
        invariant
            as_ints(idx@) == orphans_spec(local@, local@.len()),
            forall|k: int| 0 <= k < idx@.len() ==> #[trigger] idx@[k] < local@.len(),
            want == orphan_pairs(local@),
            want.len() == idx@.len(),
            i <= idx@.len(),
            pairs@.len() == i,
            forall|k: int| 0 <= k < i ==> #[trigger] pairs_view(pairs@)[k] == want[k],
        decreases idx@.len() - i,
    {
        let p = &local[idx[i]];
        assert(as_ints(idx@)[i as int] == idx@[i as int] as int);
        let ghost before = pairs@;
        pairs.push((copy_str(p.name.as_str()), copy_str(p.version.as_str())));
        proof {
            assert forall|k: int| 0 <= k < i + 1 implies #[trigger] pairs_view(pairs@)[k] == want[k] by {
                if k < i {
                    assert(pairs_view(before)[k] == want[k]);
                    assert(pairs@[k] == before[k]);
                }
            }
        }
        i = i + 1;
    }
    assert(pairs_view(pairs@) =~= want);
    let mut messages: Vec<Message> = Vec::new();
    if pairs.len() == 0 {
        let mut t = cat(" ", green("\u{2713}", plain).as_str());
        t.append(" no orphaned packages found");
        messages.push(Message { to_err: false, text: t });
        assert(messages_view(messages@) =~= autoremove_messages(want, plain));
    } else {
        let n = pairs.len();
        let mut head = cat(" ", yellow("warn", plain).as_str());
        head.append(" ");
        head.append(u64_to_dec(n as u64).as_str());
        head.append(" ");
        head.append(plural("orphaned package", n).as_str());
        messages.push(Message { to_err: true, text: head });
        let ghost first = messages_view(messages@);
        let mut j: usize = 0;
        while j < n
            invariant
                n == pairs@.len(),
                pairs_view(pairs@) == want,
                j <= n,
                messages@.len() == j + 1,
                messages_view(messages@).take(1) == first,
                forall|k: int| 1 <= k <= j ==> #[trigger] messages_view(messages@)[k] == (
                    false,
                    "  "@ + colored(want[k - 1].0, Color::Red, plain) + " ("@ + styled(
                        want[k - 1].1,
                        "\x1b[2m"@,
                        plain,
                    ) + ")"@,
                ),
            decreases n - j,
        {
            let mut t = cat("  ", red(pairs[j].0.as_str(), plain).as_str());
            t.append(" (");
            t.append(dim(pairs[j].1.as_str(), plain).as_str());
            t.append(")");
            assert(pairs_view(pairs@)[j as int] == (pairs@[j as int].0@, pairs@[j as int].1@));
            let ghost before = messages@;
            messages.push(Message { to_err: false, text: t });
            proof {
                assert(messages_view(messages@).take(1) =~= messages_view(before).take(1));
                assert forall|k: int| 1 <= k <= j + 1 implies #[trigger] messages_view(messages@)[k] == (
                    false,
                    "  "@ + colored(want[k - 1].0, Color::Red, plain) + " ("@ + styled(
                        want[k - 1].1,
                        "\x1b[2m"@,
                        plain,
                    ) + ")"@,
                ) by {
                    if k <= j {
                        assert(messages_view(before)[k] == messages_view(messages@)[k]);
                    }
                }
            }
            j = j + 1;
        }
        let mut w = cat(" ", red("WARNING", plain).as_str());
        w.append(" ");
        w.append(bold("PROCEED WITH CAUTION", plain).as_str());
        w.append(" This will remove orphaned packages. This action can delete critical dependencies if they are no longer required.");
        let ghost before = messages@;
        messages.push(Message { to_err: true, text: w });
        proof {
            assert(dec(n as nat) == dec(want.len()));
            let m = messages_view(messages@);
            let e = autoremove_messages(want, plain);
            assert(m.len() == e.len());
            assert forall|k: int| 0 <= k < m.len() implies m[k] == e[k] by {
                if k == 0 {
                    assert(messages_view(before).take(1)[0] == m[0]);
                } else if k <= n {
                    assert(messages_view(before)[k] == m[k]);
                }
            }
            assert(m =~= e);
        }
    }
    AutoremovePlan { orphans: pairs, messages }
}

} // verus!
