//! The text that reports stale processes: a list of command names, or a table
//! sorted by one field.
use vstd::prelude::*;

use crate::args::PsSortBy;
use crate::order::{
    lemma_str_lt_asymmetric, lemma_str_lt_irreflexive, lemma_str_lt_total,
    lemma_str_lt_transitive, lt_str, str_lt, strictly_ascending,
};
use crate::ps::{Process, ProcessView};
use crate::text::{decimal, decimal_string, views};

verus! {

/// `s` with `x` put in its place among the ascending names, unless it is
/// there already.
pub open spec fn insert_unique(s: Seq<Seq<char>>, x: Seq<char>) -> Seq<Seq<char>>
    decreases s.len(),
{
    if s.len() == 0 {
        seq![x]
    } else if s[0] == x {
        s
    } else if str_lt(x, s[0]) {
        seq![x] + s
    } else {
        seq![s[0]] + insert_unique(s.drop_first(), x)
    }
}

/// The command names of `ps`, ascending, each once.
pub open spec fn sorted_commands(ps: Seq<ProcessView>) -> Seq<Seq<char>>
    decreases ps.len(),
{
    if ps.len() == 0 {
        seq![]
    } else {
        insert_unique(sorted_commands(ps.drop_last()), ps.last().command)
    }
}

/// The set of command names of `ps`.
pub open spec fn command_set(ps: Seq<ProcessView>) -> Set<Seq<char>> {
    Set::new(|c: Seq<char>| exists|i: int| 0 <= i < ps.len() && (#[trigger] ps[i]).command == c)
}

pub open spec fn maybe_reversed<T>(s: Seq<T>, reverse: bool) -> Seq<T> {
    if reverse {
        s.reverse()
    } else {
        s
    }
}

proof fn lemma_insert_unique_at(s: Seq<Seq<char>>, x: Seq<char>, j: int)
    requires
        strictly_ascending(s),
        0 <= j <= s.len(),
        forall|k: int| 0 <= k < j ==> str_lt(s[k], x),
        j < s.len() ==> !str_lt(s[j], x),
    ensures
        j < s.len() && s[j] == x ==> insert_unique(s, x) == s,
        !(j < s.len() && s[j] == x) ==> insert_unique(s, x) == s.insert(j, x),
    decreases j,
{
    if j == 0 {
        if s.len() > 0 && s[0] != x {
            lemma_str_lt_total(x, s[0]);
            assert(seq![x] + s =~= s.insert(0, x));
        } else if s.len() == 0 {
            assert(seq![x] =~= s.insert(0, x));
        }
    } else {
        let t = s.drop_first();
        assert forall|k: int| 0 <= k < j - 1 implies str_lt(t[k], x) by {
            assert(t[k] == s[k + 1]);
        }
        assert(strictly_ascending(t)) by {
            assert forall|a: int, b: int| 0 <= a < b < t.len() implies str_lt(t[a], t[b]) by {
                assert(t[a] == s[a + 1] && t[b] == s[b + 1]);
            }
        }
        lemma_insert_unique_at(t, x, j - 1);
        lemma_str_lt_irreflexive(x);
        lemma_str_lt_asymmetric(s[0], x);
        assert(s[0] != x);
        assert(!str_lt(x, s[0]));
        if j < s.len() && s[j] == x {
            assert(seq![s[0]] + t =~= s);
        } else {
            assert(seq![s[0]] + t.insert(j - 1, x) =~= s.insert(j, x));
        }
    }
}

/// The names are ascending, each once, and they are exactly the command
/// names of the processes.
pub proof fn lemma_sorted_commands(ps: Seq<ProcessView>)
    ensures
        strictly_ascending(sorted_commands(ps)),
        sorted_commands(ps).to_set() == command_set(ps),
    decreases ps.len(),
{
    if ps.len() > 0 {
        let rest = ps.drop_last();
        lemma_sorted_commands(rest);
        let s = sorted_commands(rest);
        let x = ps.last().command;
        let j = first_not_below(s, x);
        lemma_first_not_below(s, x);
        lemma_insert_unique_at(s, x, j);
        let r = sorted_commands(ps);
        if !(j < s.len() && s[j] == x) {
            assert(strictly_ascending(r)) by {
                assert forall|a: int, b: int| 0 <= a < b < r.len() implies str_lt(r[a], r[b]) by {
                    if j < s.len() {
                        lemma_str_lt_total(s[j], x);
                    }
                    if a < j && b == j {
                    } else if a == j && b > j {
                        assert(r[b] == s[b - 1]);
                        if b - 1 > j {
                            lemma_str_lt_transitive(x, s[j], s[b - 1]);
                        }
                    } else if a < j && b > j {
                        assert(r[b] == s[b - 1]);
                        lemma_str_lt_transitive(s[a], x, s[j]);
                        if b - 1 > j {
                            lemma_str_lt_transitive(s[a], s[j], s[b - 1]);
                        }
                    } else if a > j {
                        assert(r[a] == s[a - 1] && r[b] == s[b - 1]);
                    }
                }
            }
        }
        assert forall|c: Seq<char>| r.to_set().contains(c) == command_set(ps).contains(c) by {
            if r.contains(c) {
                let k = choose|k: int| 0 <= k < r.len() && r[k] == c;
                if c != x {
                    if !(j < s.len() && s[j] == x) {
                        if k < j {
                            assert(s[k] == c);
                        } else {
                            assert(s[k - 1] == c);
                        }
                    } else {
                        assert(s[k] == c);
                    }
                    assert(s.to_set().contains(c));
                    let i = choose|i: int| 0 <= i < rest.len() && (#[trigger] rest[i]).command == c;
                    assert(ps[i] == rest[i]);
                } else {
                    assert(ps[ps.len() - 1].command == c);
                }
            }
            if command_set(ps).contains(c) {
                let i = choose|i: int| 0 <= i < ps.len() && (#[trigger] ps[i]).command == c;
                if !(j < s.len() && s[j] == x) {
                    if i < rest.len() {
                        assert(rest[i] == ps[i]);
                        assert(command_set(rest).contains(c));
                        assert(s.to_set().contains(c));
                        let k = choose|k: int| 0 <= k < s.len() && s[k] == c;
                        if k < j {
                            assert(r[k] == c);
                        } else {
                            assert(r[k + 1] == c);
                        }
                    } else {
                        assert(r[j] == c);
                    }
                } else {
                    if i < rest.len() {
                        assert(rest[i] == ps[i]);
                        assert(command_set(rest).contains(c));
                        assert(s.to_set().contains(c));
                    } else {
                        assert(r[j] == c);
                    }
                }
            }
        }
        assert(r.to_set() =~= command_set(ps));
    } else {
        assert(sorted_commands(ps).to_set() =~= command_set(ps));
    }
}

/// The first index of `s` whose name is not below `x`.
pub open spec fn first_not_below(s: Seq<Seq<char>>, x: Seq<char>) -> int
    decreases s.len(),
{
    if s.len() == 0 {
        0
    } else if !str_lt(s[0], x) {
        0
    } else {
        1 + first_not_below(s.drop_first(), x)
    }
}

proof fn lemma_first_not_below(s: Seq<Seq<char>>, x: Seq<char>)
    ensures
        0 <= first_not_below(s, x) <= s.len(),
        forall|k: int| 0 <= k < first_not_below(s, x) ==> str_lt(s[k], x),
        first_not_below(s, x) < s.len() ==> !str_lt(s[first_not_below(s, x)], x),
    decreases s.len(),
{
    if s.len() > 0 && str_lt(s[0], x) {
        lemma_first_not_below(s.drop_first(), x);
        assert forall|k: int| 0 <= k < first_not_below(s, x) implies str_lt(s[k], x) by {
            if k > 0 {
                assert(s[k] == s.drop_first()[k - 1]);
            }
        }
    }
}

fn reversed_texts(v: Vec<String>) -> (r: Vec<String>)
    ensures
        views(r@) == views(v@).reverse(),
{
    let n = v.len();
    let mut out: Vec<String> = Vec::new();
    let mut i: usize = 0;
    while i < n
        invariant
            n == v@.len(),
            i <= n,
            views(out@) == views(v@).reverse().take(i as int),
        decreases n - i,
    {
        let s = v[n - 1 - i].clone();
        proof {
            assert(views(v@).reverse()[i as int] == v@[n - 1 - i]@);
            assert(views(out@.push(s)) =~= views(out@).push(s@));
            assert(views(out@.push(s)) =~= views(v@).reverse().take(i + 1));
        }
        out.push(s);
        i = i + 1;
    }
    proof {
        assert(views(v@).reverse().take(n as int) =~= views(v@).reverse());
    }
    out
}

/// The command names of the processes, ascending and each once; descending
/// when `reverse` is set.
pub fn short_listing(processes: &Vec<Process>, reverse: bool) -> (r: Vec<String>)
    ensures
        views(r@) == maybe_reversed(sorted_commands(processes@.map_values(|p: Process| p@)), reverse),
        strictly_ascending(maybe_reversed(views(r@), reverse)),
        views(r@).to_set() == command_set(processes@.map_values(|p: Process| p@)),
{
    let ghost ps = processes@.map_values(|p: Process| p@);
    let mut names: Vec<String> = Vec::new();
    let mut i: usize = 0;
    while i < processes.len()
        invariant
            i <= processes@.len(),
            ps == processes@.map_values(|p: Process| p@),
            views(names@) == sorted_commands(ps.take(i as int)),
            strictly_ascending(views(names@)),
        decreases processes@.len() - i,
    {
        let x = &processes[i].command;
        proof {
            lemma_sorted_commands(ps.take(i as int));
            assert(ps.take(i + 1).drop_last() =~= ps.take(i as int));
            assert(ps.take(i + 1).last().command == x@);
        }
        let ghost s = views(names@);
        let mut j: usize = 0;
        while j < names.len() && lt_str(names[j].as_str(), x.as_str())
            invariant
                j <= names@.len(),
                s == views(names@),
                forall|k: int| 0 <= k < j ==> str_lt(s[k], x@),
            decreases names@.len() - j,
        {
            j = j + 1;
        }
        proof {
            if j < names@.len() {
                assert(s[j as int] == names@[j as int]@);
            }
            lemma_insert_unique_at(s, x@, j as int);
        }
        if j < names.len() && names[j] == *x {
            assert(s[j as int] == x@);
        } else {
            names.insert(j, x.clone());
            proof {
                assert(views(names@) =~= s.insert(j as int, x@));
                lemma_sorted_commands(ps.take(i + 1));
            }
        }
        i = i + 1;
    }
    proof {
        assert(ps.take(i as int) =~= ps);
        lemma_sorted_commands(ps);
    }
    if reverse {
        let r = reversed_texts(names);
        proof {
            assert(views(r@).reverse() =~= sorted_commands(ps));
            assert forall|c: Seq<char>| views(r@).to_set().contains(c) == sorted_commands(
                ps,
            ).to_set().contains(c) by {
                let u = sorted_commands(ps);
                if views(r@).contains(c) {
                    let k = choose|k: int| 0 <= k < views(r@).len() && views(r@)[k] == c;
                    assert(u[u.len() - 1 - k] == c);
                }
                if u.contains(c) {
                    let k = choose|k: int| 0 <= k < u.len() && u[k] == c;
                    assert(views(r@)[u.len() - 1 - k] == c);
                }
            }
            assert(views(r@).to_set() =~= sorted_commands(ps).to_set());
        }
        r
    } else {
        names
    }
}

/// `a` sorts strictly before `b` by the field `by`.
pub open spec fn key_lt(a: ProcessView, b: ProcessView, by: PsSortBy) -> bool {
    match by {
        PsSortBy::Pid => a.pid < b.pid,
        PsSortBy::User => str_lt(a.user_name, b.user_name),
        PsSortBy::Command => str_lt(a.command, b.command),
    }
}

/// `s` with `x` put before the first row that sorts strictly after it.
pub open spec fn insert_stable(s: Seq<ProcessView>, x: ProcessView, by: PsSortBy) -> Seq<
    ProcessView,
>
    decreases s.len(),
{
    if s.len() == 0 {
        seq![x]
    } else if key_lt(x, s[0], by) {
        seq![x] + s
    } else {
        seq![s[0]] + insert_stable(s.drop_first(), x, by)
    }
}

/// The stable sort of `s` by the field `by`: rows with equal keys keep
/// their order.
pub open spec fn sort_stable(s: Seq<ProcessView>, by: PsSortBy) -> Seq<ProcessView>
    decreases s.len(),
{
    if s.len() == 0 {
        seq![]
    } else {
        insert_stable(sort_stable(s.drop_last(), by), s.last(), by)
    }
}

/// The rows of the table: sorted when a key is given, then reversed when
/// asked.
pub open spec fn ordered_rows(s: Seq<ProcessView>, sort_by: Option<PsSortBy>, reverse: bool) -> Seq<
    ProcessView,
> {
    let sorted = match sort_by {
        Some(by) => sort_stable(s, by),
        None => s,
    };
    maybe_reversed(sorted, reverse)
}

proof fn lemma_insert_stable_at(s: Seq<ProcessView>, x: ProcessView, by: PsSortBy, j: int)
    requires
        0 <= j <= s.len(),
        forall|k: int| 0 <= k < j ==> !key_lt(x, #[trigger] s[k], by),
        j < s.len() ==> key_lt(x, s[j], by),
    ensures
        insert_stable(s, x, by) == s.insert(j, x),
    decreases j,
{
    if j == 0 {
        if s.len() > 0 {
            assert(seq![x] + s =~= s.insert(0, x));
        } else {
            assert(seq![x] =~= s.insert(0, x));
        }
    } else {
        let t = s.drop_first();
        assert forall|k: int| 0 <= k < j - 1 implies !key_lt(x, #[trigger] t[k], by) by {
            assert(t[k] == s[k + 1]);
        }
        lemma_insert_stable_at(t, x, by, j - 1);
        assert(!key_lt(x, s[0], by));
        assert(seq![s[0]] + t.insert(j - 1, x) =~= s.insert(j, x));
    }
}

/// No row sorts strictly before an earlier one.
pub open spec fn sorted_by(s: Seq<ProcessView>, by: PsSortBy) -> bool {
    forall|i: int, j: int| 0 <= i < j < s.len() ==> !key_lt(s[j], s[i], by)
}

/// The first index of `s` whose row sorts strictly after `x`.
pub open spec fn first_above(s: Seq<ProcessView>, x: ProcessView, by: PsSortBy) -> int
    decreases s.len(),
{
    if s.len() == 0 {
        0
    } else if key_lt(x, s[0], by) {
        0
    } else {
        1 + first_above(s.drop_first(), x, by)
    }
}

proof fn lemma_first_above(s: Seq<ProcessView>, x: ProcessView, by: PsSortBy)
    ensures
        0 <= first_above(s, x, by) <= s.len(),
        forall|k: int| 0 <= k < first_above(s, x, by) ==> !key_lt(x, #[trigger] s[k], by),
        first_above(s, x, by) < s.len() ==> key_lt(x, s[first_above(s, x, by)], by),
    decreases s.len(),
{
    if s.len() > 0 && !key_lt(x, s[0], by) {
        lemma_first_above(s.drop_first(), x, by);
        assert forall|k: int| 0 <= k < first_above(s, x, by) implies !key_lt(
            x,
            #[trigger] s[k],
            by,
        ) by {
            if k > 0 {
                assert(s[k] == s.drop_first()[k - 1]);
            }
        }
    }
}

proof fn lemma_key_lt_order(a: ProcessView, b: ProcessView, c: ProcessView, by: PsSortBy)
    ensures
        key_lt(a, b, by) && key_lt(b, c, by) ==> key_lt(a, c, by),
        key_lt(a, b, by) ==> !key_lt(b, a, by),
{
    match by {
        PsSortBy::Pid => {},
        PsSortBy::User => {
            if str_lt(a.user_name, b.user_name) {
                lemma_str_lt_asymmetric(a.user_name, b.user_name);
                if str_lt(b.user_name, c.user_name) {
                    lemma_str_lt_transitive(a.user_name, b.user_name, c.user_name);
                }
            }
        },
        PsSortBy::Command => {
            if str_lt(a.command, b.command) {
                lemma_str_lt_asymmetric(a.command, b.command);
                if str_lt(b.command, c.command) {
                    lemma_str_lt_transitive(a.command, b.command, c.command);
                }
            }
        },
    }
}

/// The stable sort orders the rows by the key and only rearranges them.
pub proof fn lemma_sort_stable(s: Seq<ProcessView>, by: PsSortBy)
    ensures
        sorted_by(sort_stable(s, by), by),
        sort_stable(s, by).to_multiset() == s.to_multiset(),
    decreases s.len(),
{
    broadcast use vstd::seq_lib::group_to_multiset_ensures;

    if s.len() > 0 {
        let rest = s.drop_last();
        lemma_sort_stable(rest, by);
        let r0 = sort_stable(rest, by);
        let x = s.last();
        let j = first_above(r0, x, by);
        lemma_first_above(r0, x, by);
        lemma_insert_stable_at(r0, x, by, j);
        let r = r0.insert(j, x);
        assert(sort_stable(s, by) == r);
        assert forall|a: int, b: int| 0 <= a < b < r.len() implies !key_lt(r[b], r[a], by) by {
            if a < j && b == j {
            } else if a < j && b > j {
                assert(r[b] == r0[b - 1]);
            } else if a == j && b > j {
                assert(r[b] == r0[b - 1]);
                lemma_key_lt_order(r0[b - 1], x, r0[j], by);
            } else if a > j {
                assert(r[a] == r0[a - 1] && r[b] == r0[b - 1]);
            }
        }
        assert(s =~= rest.push(x));
        assert(r.to_multiset() =~= r0.to_multiset().insert(x));
    }
}

fn key_lt_exec(a: &Process, b: &Process, by: PsSortBy) -> (r: bool)
    ensures
        r == key_lt(a@, b@, by),
{
    match by {
        PsSortBy::Pid => a.pid < b.pid,
        PsSortBy::User => lt_str(a.user_name.as_str(), b.user_name.as_str()),
        PsSortBy::Command => lt_str(a.command.as_str(), b.command.as_str()),
    }
}

pub open spec fn rows_of(v: Seq<Process>) -> Seq<ProcessView> {
    v.map_values(|p: Process| p@)
}

fn sorted_processes(processes: &Vec<Process>, by: PsSortBy) -> (r: Vec<Process>)
    ensures
        rows_of(r@) == sort_stable(rows_of(processes@), by),
{
    let ghost ps = rows_of(processes@);
    let mut out: Vec<Process> = Vec::new();
    let mut i: usize = 0;
    while i < processes.len()
        invariant
            i <= processes@.len(),
            ps == rows_of(processes@),
            rows_of(out@) == sort_stable(ps.take(i as int), by),
        decreases processes@.len() - i,
    {
        let x = &processes[i];
        let ghost s = rows_of(out@);
        let mut j: usize = 0;
        while j < out.len() && !key_lt_exec(x, &out[j], by)
            invariant
                j <= out@.len(),
                s == rows_of(out@),
                forall|k: int| 0 <= k < j ==> !key_lt(x@, #[trigger] s[k], by),
            decreases out@.len() - j,
        {
            j = j + 1;
        }
        proof {
            lemma_insert_stable_at(s, x@, by, j as int);
            assert(ps.take(i + 1).drop_last() =~= ps.take(i as int));
            assert(ps.take(i + 1).last() == x@);
        }
        out.insert(j, x.duplicate());
        proof {
            assert(rows_of(out@) =~= s.insert(j as int, x@));
        }
        i = i + 1;
    }
    proof {
        assert(ps.take(i as int) =~= ps);
    }
    out
}

fn reversed_processes(v: Vec<Process>) -> (r: Vec<Process>)
    ensures
        rows_of(r@) == rows_of(v@).reverse(),
{
    let n = v.len();
    let mut out: Vec<Process> = Vec::new();
    let mut i: usize = 0;
    while i < n
        invariant
            n == v@.len(),
            i <= n,
            rows_of(out@) == rows_of(v@).reverse().take(i as int),
        decreases n - i,
    {
        let p = v[n - 1 - i].duplicate();
        proof {
            assert(rows_of(v@).reverse()[i as int] == v@[n - 1 - i]@);
            assert(rows_of(out@.push(p)) =~= rows_of(out@).push(p@));
            assert(rows_of(out@.push(p)) =~= rows_of(v@).reverse().take(i + 1));
        }
        out.push(p);
        i = i + 1;
    }
    proof {
        assert(rows_of(v@).reverse().take(n as int) =~= rows_of(v@).reverse());
    }
    out
}

/// The processes in the order of the table: stably sorted by `sort_by` when
/// it is given, then reversed when `reverse` is set.
pub fn order_processes(processes: &Vec<Process>, sort_by: Option<PsSortBy>, reverse: bool) -> (r:
    Vec<Process>)
    ensures
        rows_of(r@) == ordered_rows(rows_of(processes@), sort_by, reverse),
        sort_by matches Some(by) ==> sorted_by(maybe_reversed(rows_of(r@), reverse), by),
{
    proof {
        if let Some(by) = sort_by {
            lemma_sort_stable(rows_of(processes@), by);
            if reverse {
                assert(sort_stable(rows_of(processes@), by).reverse().reverse() =~= sort_stable(
                    rows_of(processes@),
                    by,
                ));
            }
        }
    }
    let sorted = match sort_by {
        Some(by) => sorted_processes(processes, by),
        None => {
            let mut copy: Vec<Process> = Vec::new();
            let mut i: usize = 0;
            while i < processes.len()
                invariant
                    i <= processes@.len(),
                    rows_of(copy@) == rows_of(processes@).take(i as int),
                decreases processes@.len() - i,
            {
                let p = processes[i].duplicate();
                proof {
                    assert(rows_of(processes@)[i as int] == p@);
                    assert(rows_of(copy@.push(p)) =~= rows_of(copy@).push(p@));
                    assert(rows_of(copy@.push(p)) =~= rows_of(processes@).take(i + 1));
                }
                copy.push(p);
                i = i + 1;
            }
            proof {
                assert(rows_of(processes@).take(i as int) =~= rows_of(processes@));
            }
            copy
        },
    };
    if reverse {
        reversed_processes(sorted)
    } else {
        sorted
    }
}

/// Sorting by user name and then reversing gives the reverse of sorting by
/// user name alone, ties included.
pub proof fn lemma_reverse_of_user_sort(rows: Seq<ProcessView>)
    ensures
        ordered_rows(rows, Some(PsSortBy::User), true) == ordered_rows(
            rows,
            Some(PsSortBy::User),
            false,
        ).reverse(),
{
}

/// The text that tabled draws for `rows` in its psql style, the first row
/// being the header.
pub uninterp spec fn psql_table(rows: Seq<Seq<Seq<char>>>) -> Seq<char>;

pub open spec fn cells_of(rows: Seq<Vec<String>>) -> Seq<Seq<Seq<char>>> {
    rows.map_values(|r: Vec<String>| views(r@))
}

/// Relies on tabled: `Builder::from` takes the rows (the first one being the
/// header), and `Table::with(Style::psql())` then `to_string` draw them; the
/// text depends on the cells alone.
#[verifier::external_body]
fn draw_psql_table(rows: Vec<Vec<String>>) -> (r: String)
    ensures
        r@ == psql_table(cells_of(rows@)),
{
    let mut table = tabled::builder::Builder::from(rows).build();
    table.with(tabled::settings::Style::psql());
    table.to_string()
}

/// The header of the table.
pub open spec fn table_header() -> Seq<Seq<char>> {
    seq!["pid"@, "user_name"@, "command"@]
}

/// The cells of one row.
pub open spec fn row_cells(p: ProcessView) -> Seq<Seq<char>> {
    seq![decimal(p.pid as nat), p.user_name, p.command]
}

/// The cells of the table: the header, then one row per process.
pub open spec fn table_cells(rows: Seq<ProcessView>) -> Seq<Seq<Seq<char>>> {
    seq![table_header()] + rows.map_values(|p: ProcessView| row_cells(p))
}

/// The table of the processes in the psql style, ordered as
/// `order_processes` orders them.
pub fn long_listing(processes: &Vec<Process>, reverse: bool, sort_by: Option<PsSortBy>) -> (r:
    String)
    ensures
        r@ == psql_table(table_cells(ordered_rows(rows_of(processes@), sort_by, reverse))),
{
    let ordered = order_processes(processes, sort_by, reverse);
    let ghost o = rows_of(ordered@);
    let mut rows: Vec<Vec<String>> = Vec::new();
    let mut header: Vec<String> = Vec::new();
    header.push("pid".to_owned());
    header.push("user_name".to_owned());
    header.push("command".to_owned());
    proof {
        assert(views(header@) =~= table_header());
    }
    rows.push(header);
    let mut i: usize = 0;
    while i < ordered.len()
        invariant
            i <= ordered@.len(),
            o == rows_of(ordered@),
            cells_of(rows@) == table_cells(o.take(i as int)),
        decreases ordered@.len() - i,
    {
        let p = &ordered[i];
        let mut row: Vec<String> = Vec::new();
        row.push(decimal_string(p.pid));
        row.push(p.user_name.clone());
        row.push(p.command.clone());
        proof {
            assert(views(row@) =~= row_cells(p@));
            assert(o[i as int] == p@);
            assert(cells_of(rows@.push(row)) =~= cells_of(rows@).push(views(row@)));
            let m = o.take(i + 1).map_values(|p: ProcessView| row_cells(p));
            assert(m =~= o.take(i as int).map_values(|p: ProcessView| row_cells(p)).push(
                row_cells(p@),
            ));
            assert(table_cells(o.take(i + 1)) =~= table_cells(o.take(i as int)).push(
                row_cells(p@),
            ));
        }
        rows.push(row);
        i = i + 1;
    }
    proof {
        assert(o.take(i as int) =~= o);
    }
    draw_psql_table(rows)
}

/// The lines of `lines`, each ended by a line feed.
pub open spec fn lines_text(lines: Seq<Seq<char>>) -> Seq<char>
    decreases lines.len(),
{
    if lines.len() == 0 {
        seq![]
    } else {
        lines_text(lines.drop_last()) + lines.last() + seq!['\n']
    }
}

/// The line printed when no process maps a deleted package file.
pub open spec fn not_found_line() -> Seq<char> {
    "The processes using removed files were not found.\n"@
}

/// What the report prints on standard output for the stale processes `rows`:
/// when there are none, one informational line unless `quiet`; in short mode
/// the command names; otherwise the table.
pub open spec fn ps_text(
    rows: Seq<ProcessView>,
    sort_by: Option<PsSortBy>,
    shorter: bool,
    reverse: bool,
    quiet: bool,
) -> Seq<char> {
    if rows.len() == 0 {
        if quiet {
            seq![]
        } else {
            not_found_line()
        }
    } else if shorter {
        lines_text(maybe_reversed(sorted_commands(rows), reverse))
    } else {
        psql_table(table_cells(ordered_rows(rows, sort_by, reverse))) + seq!['\n']
    }
}

/// The report of the stale processes, as it is printed.
pub fn ps_output(
    processes: &Vec<Process>,
    sort_by: Option<PsSortBy>,
    shorter: bool,
    reverse: bool,
    quiet: bool,
) -> (r: String)
    ensures
        r@ == ps_text(rows_of(processes@), sort_by, shorter, reverse, quiet),
{
    proof {
        reveal_strlit("The processes using removed files were not found.\n");
        reveal_strlit("\n");
    }
    if processes.len() == 0 {
        if quiet {
            return String::new();
        } else {
            return "The processes using removed files were not found.\n".to_owned();
        }
    }
    if shorter {
        let names = short_listing(processes, reverse);
        let mut out = String::new();
        let mut i: usize = 0;
        while i < names.len()
            invariant
                i <= names@.len(),
                out@ == lines_text(views(names@).take(i as int)),
            decreases names@.len() - i,
        {
            out.append(names[i].as_str());
            out.append("\n");
            proof {
                reveal_strlit("\n");
                assert("\n"@ =~= seq!['\n']);
                let t = views(names@).take(i + 1);
                assert(t.drop_last() =~= views(names@).take(i as int));
                assert(t.last() == names@[i as int]@);
            }
            i = i + 1;
        }
        proof {
            assert(views(names@).take(i as int) =~= views(names@));
        }
        out
    } else {
        let mut out = long_listing(processes, reverse, sort_by);
        out.append("\n");
        out
    }
}

/// The report is a function of its inputs: two runs on the same processes
/// with the same options print the same text.
pub proof fn lemma_ps_text_repeatable(
    first: Seq<ProcessView>,
    second: Seq<ProcessView>,
    sort_by: Option<PsSortBy>,
    shorter: bool,
    reverse: bool,
    quiet: bool,
)
    requires
        first == second,
    ensures
        ps_text(first, sort_by, shorter, reverse, quiet) == ps_text(
            second,
            sort_by,
            shorter,
            reverse,
            quiet,
        ),
{
}

/// The warning shown before the report when the scan cannot read every
/// process's mappings.
pub open spec fn privilege_notice() -> Seq<char> {
    "Not running as root you are limited to searching for files you have permission. The result might be incomplete.\n"@
}

/// The warning to show before the report: only when not `quiet` and not
/// running as root.
pub fn ps_notice(quiet: bool, root: bool) -> (r: Option<String>)
    ensures
        r is Some <==> !quiet && !root,
        r matches Some(t) ==> t@ == privilege_notice(),
{
    if !quiet && !root {
        Some(
            "Not running as root you are limited to searching for files you have permission. The result might be incomplete.\n".to_owned(),
        )
    } else {
        None
    }
}

} // verus!
