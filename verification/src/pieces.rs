//! Reading a workspace in pieces.
//!
//! A file is read on its own, so the reading divides. What it is resolved
//! against does not: each reader says what it found, the findings are merged
//! in the order the files were read, and only then followed. This module says
//! what the merging promises.

use vstd::prelude::*;

use crate::prepass::{self, FactsV, Found, Lists, SharedV, ParsedV};
use crate::syntax::{self, Expression, Part, Place};
use crate::table;
use crate::text::Text;

verus! {

// --- tables laid over tables -------------------------------------------------

/// What tables laid one over the other answer: the later one, where it has an
/// answer.
proof fn lemma_overlaid<V>(rows: Seq<(Text, V)>, others: Seq<(Text, V)>, n: nat, name: Text)
    requires
        table::ordered(rows),
        table::ordered(others),
        n <= others.len(),
    ensures
        table::ordered(prepass::overlaid(rows, others, n)),
        table::lookup(prepass::overlaid(rows, others, n), name) == (match table::lookup(
            others.take(n as int),
            name,
        ) {
            Some(v) => Some(v),
            None => table::lookup(rows, name),
        }),
    decreases n,
{
    if n == 0 {
        assert(others.take(0) =~= seq![]);
    } else {
        let before = prepass::overlaid(rows, others, (n - 1) as nat);
        let (key, value) = others[n - 1];
        lemma_overlaid(rows, others, (n - 1) as nat, name);
        table::lemma_put_ordered(before, key, value);
        table::lemma_put_lookup(before, key, value, name);
        table::lemma_take_one_more(others, n, name);
    }
}

/// What gathered lists answer: the list, and those of the other that it did
/// not have.
proof fn lemma_gathered(lists: Lists, others: Lists, n: nat, name: Text)
    requires
        table::ordered(lists),
        table::ordered(others),
        n <= others.len(),
    ensures
        table::ordered(prepass::gathered_lists(lists, others, n)),
        table::lookup(prepass::gathered_lists(lists, others, n), name) == (match table::lookup(
            others.take(n as int),
            name,
        ) {
            Some(items) => Some(
                prepass::with_new(prepass::list_at(lists, name), items, items.len()),
            ),
            None => table::lookup(lists, name),
        }),
    decreases n,
{
    if n == 0 {
        assert(others.take(0) =~= seq![]);
    } else {
        let before = prepass::gathered_lists(lists, others, (n - 1) as nat);
        let (key, items) = others[n - 1];
        let value = prepass::with_new(prepass::list_at(before, key), items, items.len());
        lemma_gathered(lists, others, (n - 1) as nat, name);
        lemma_gathered(lists, others, (n - 1) as nat, key);
        table::lemma_put_ordered(before, key, value);
        table::lemma_put_lookup(before, key, value, name);
        table::lemma_take_one_more(others, n, name);
        table::lemma_take_one_more(others, n, key);
    }
}

// --- lists without repeats ---------------------------------------------------

proof fn lemma_new_prefix(list: Seq<Text>, a: Seq<Text>, b: Seq<Text>, n: nat)
    requires
        n <= a.len(),
        n <= b.len(),
        a.take(n as int) == b.take(n as int),
    ensures
        prepass::with_new(list, a, n) == prepass::with_new(list, b, n),
    decreases n,
{
    if n > 0 {
        assert(a.take(n - 1) =~= a.take(n as int).take(n - 1));
        assert(b.take(n - 1) =~= b.take(n as int).take(n - 1));
        assert(a[n - 1] == a.take(n as int)[n - 1]);
        assert(b[n - 1] == b.take(n as int)[n - 1]);
        lemma_new_prefix(list, a, b, (n - 1) as nat);
    }
}

/// Everything that was new, or was there, is in the list.
proof fn lemma_new_holds(list: Seq<Text>, others: Seq<Text>, n: nat, item: Text)
    requires
        n <= others.len(),
    ensures
        prepass::with_new(list, others, n).contains(item) <==> list.contains(item)
            || others.take(n as int).contains(item),
    decreases n,
{
    if n == 0 {
        assert(others.take(0) =~= seq![]);
    } else {
        let before = prepass::with_new(list, others, (n - 1) as nat);
        let after = prepass::with_new(list, others, n);
        lemma_new_holds(list, others, (n - 1) as nat, item);
        let front = others.take(n - 1);
        assert(others.take(n as int) =~= front.push(others[n - 1]));
        lemma_push_holds(front, others[n - 1], item);
        lemma_push_holds(before, others[n - 1], item);
    }
}

proof fn lemma_push_holds(list: Seq<Text>, last: Text, item: Text)
    ensures
        list.push(last).contains(item) <==> list.contains(item) || item == last,
{
    let after = list.push(last);
    if list.contains(item) {
        let i = choose|i: int| 0 <= i < list.len() && list[i] == item;
        assert(after[i] == item);
    }
    if item == last {
        assert(after[list.len() as int] == item);
    }
    if after.contains(item) {
        let i = choose|i: int| 0 <= i < after.len() && after[i] == item;
        if i < list.len() {
            assert(list[i] == item);
        }
    }
}

// --- reading on from what is known -------------------------------------------

pub open spec fn tidy(h: SharedV) -> bool {
    &&& table::ordered(h.constants)
    &&& table::ordered(h.literal_fns)
    &&& table::ordered(h.calls)
    &&& table::ordered(h.reads_env)
    &&& table::ordered(h.truncated)
    &&& table::ordered(h.defined)
}

/// What a table answers that began as another.
spec fn over<V>(first: Seq<(Text, V)>, later: Seq<(Text, V)>, name: Text) -> Option<V> {
    match table::lookup(later, name) {
        Some(v) => Some(v),
        None => table::lookup(first, name),
    }
}

/// What lists answer that began as others.
spec fn beyond(first: Lists, later: Lists, name: Text) -> Option<Seq<Text>> {
    match table::lookup(later, name) {
        Some(items) => Some(
            prepass::with_new(prepass::list_at(first, name), items, items.len()),
        ),
        None => table::lookup(first, name),
    }
}

spec fn covers<V>(first: Seq<(Text, V)>, later: Seq<(Text, V)>, both: Seq<(Text, V)>) -> bool {
    forall|name: Text| #[trigger] table::lookup(both, name) == over(first, later, name)
}

spec fn continues(first: Lists, later: Lists, both: Lists) -> bool {
    forall|name: Text| #[trigger] table::lookup(both, name) == beyond(first, later, name)
}

/// What is found reading on from what is known, against what is found reading
/// from nothing.
spec fn onto(first: SharedV, later: SharedV, both: SharedV) -> bool {
    &&& tidy(first)
    &&& tidy(later)
    &&& tidy(both)
    &&& covers(first.constants, later.constants, both.constants)
    &&& covers(first.literal_fns, later.literal_fns, both.literal_fns)
    &&& covers(first.truncated, later.truncated, both.truncated)
    &&& covers(first.defined, later.defined, both.defined)
    &&& continues(first.calls, later.calls, both.calls)
    &&& continues(first.reads_env, later.reads_env, both.reads_env)
}

proof fn lemma_put_over<V>(
    first: Seq<(Text, V)>,
    later: Seq<(Text, V)>,
    both: Seq<(Text, V)>,
    key: Text,
    value: V,
)
    requires
        table::ordered(later),
        table::ordered(both),
        covers(first, later, both),
    ensures
        table::ordered(table::put(later, key, value)),
        table::ordered(table::put(both, key, value)),
        covers(first, table::put(later, key, value), table::put(both, key, value)),
{
    table::lemma_put_ordered(later, key, value);
    table::lemma_put_ordered(both, key, value);
    assert forall|name: Text| #[trigger] table::lookup(table::put(both, key, value), name) == over(
        first,
        table::put(later, key, value),
        name,
    ) by {
        table::lemma_put_lookup(both, key, value, name);
        table::lemma_put_lookup(later, key, value, name);
        assert(table::lookup(both, name) == over(first, later, name));
    }
}

proof fn lemma_listed_beyond(first: Lists, later: Lists, both: Lists, key: Text, item: Text)
    requires
        table::ordered(later),
        table::ordered(both),
        continues(first, later, both),
    ensures
        table::ordered(prepass::listed(later, key, item)),
        table::ordered(prepass::listed(both, key, item)),
        continues(first, prepass::listed(later, key, item), prepass::listed(both, key, item)),
{
    let start = prepass::list_at(first, key);
    let read = prepass::list_at(later, key);
    let all = prepass::list_at(both, key);
    let short = prepass::entered(read, item);
    let long = prepass::entered(all, item);
    table::lemma_put_ordered(later, key, short);
    table::lemma_put_ordered(both, key, long);
    assert(table::lookup(both, key) == beyond(first, later, key));
    assert(all == prepass::with_new(start, read, read.len()));
    assert(long == prepass::with_new(start, short, short.len())) by {
        if read.contains(item) {
            assert(read.take(read.len() as int) =~= read);
            lemma_new_holds(start, read, read.len(), item);
        } else {
            assert(short.take(read.len() as int) =~= read.take(read.len() as int));
            lemma_new_prefix(start, read, short, read.len());
        }
    }
    assert forall|name: Text| #[trigger]
        table::lookup(prepass::listed(both, key, item), name) == beyond(
            first,
            prepass::listed(later, key, item),
            name,
        ) by {
        table::lemma_put_lookup(both, key, long, name);
        table::lemma_put_lookup(later, key, short, name);
        assert(table::lookup(both, name) == beyond(first, later, name));
    }
}

proof fn lemma_onto_at(
    first: SharedV,
    apart: Found,
    on: Found,
    owner: Option<Text>,
    place: Place,
)
    requires
        onto(first, apart.held, on.held),
    ensures
        onto(
            first,
            prepass::found_at(apart, owner, place).held,
            prepass::found_at(on, owner, place).held,
        ),
{
    let (a, b) = (apart.held, on.held);
    match place {
        Place::Const { name, value, .. } => {
            if let Some(s) = syntax::literal(value) {
                lemma_put_over(first.constants, a.constants, b.constants, name@, s);
            }
        },
        Place::Global { name, value, .. } => {
            if let Some(s) = syntax::literal(value) {
                lemma_put_over(first.constants, a.constants, b.constants, name@, s);
            }
        },
        Place::Fn(f) => {
            lemma_put_over(first.defined, a.defined, b.defined, f.name@, ());
            if let Some(s) = syntax::sole_literal(f.body@) {
                lemma_put_over(first.literal_fns, a.literal_fns, b.literal_fns, f.name@, s);
            }
        },
        Place::Call { func, args, .. } => {
            if let (Some(caller), Some(callee)) = (owner, syntax::name_of(func)) {
                lemma_listed_beyond(first.calls, a.calls, b.calls, caller, callee);
                if args@.len() > 0 {
                    if let Expression::Str(s) = args@[0] {
                        lemma_listed_beyond(
                            first.reads_env,
                            a.reads_env,
                            b.reads_env,
                            caller,
                            s@,
                        );
                    }
                }
            }
        },
        _ => {},
    }
}

proof fn lemma_onto_in(first: SharedV, apart: Found, on: Found, owner: Option<Text>, part: Part)
    requires
        onto(first, apart.held, on.held),
    ensures
        onto(
            first,
            prepass::found_in(apart, owner, part).held,
            prepass::found_in(on, owner, part).held,
        ),
    decreases part, 0nat,
{
    lemma_onto_at(first, apart, on, owner, part.place);
    if prepass::opens(part.place) {
        lemma_onto_all(
            first,
            prepass::found_at(apart, owner, part.place),
            prepass::found_at(on, owner, part.place),
            prepass::owner_in(owner, part.place),
            part.parts@,
            part.parts@.len(),
        );
    }
}

proof fn lemma_onto_all(
    first: SharedV,
    apart: Found,
    on: Found,
    owner: Option<Text>,
    parts: Seq<Part>,
    n: nat,
)
    requires
        onto(first, apart.held, on.held),
    ensures
        onto(
            first,
            prepass::found_all(apart, owner, parts, n).held,
            prepass::found_all(on, owner, parts, n).held,
        ),
    decreases parts, n,
{
    if n > 0 && n <= parts.len() {
        lemma_onto_all(first, apart, on, owner, parts, (n - 1) as nat);
        lemma_onto_in(
            first,
            prepass::found_all(apart, owner, parts, (n - 1) as nat),
            prepass::found_all(on, owner, parts, (n - 1) as nat),
            owner,
            parts[n - 1],
        );
    }
}

proof fn lemma_onto_files(first: FactsV, files: Seq<ParsedV>, n: nat)
    requires
        tidy(first.held),
        n <= files.len(),
    ensures
        onto(first.held, FactsV::empty().files(files, n).held, first.files(files, n).held),
    decreases n,
{
    if n > 0 {
        lemma_onto_files(first, files, (n - 1) as nat);
        let apart = FactsV::empty().files(files, (n - 1) as nat);
        let on = first.files(files, (n - 1) as nat);
        let parts = files[n - 1].parsed.parts@;
        lemma_onto_all(
            first.held,
            Found { held: apart.held, renamed: seq![] },
            Found { held: on.held, renamed: seq![] },
            None,
            parts,
            parts.len(),
        );
    }
}

// --- merging -----------------------------------------------------------------

proof fn lemma_merged_tables<V>(
    first: Seq<(Text, V)>,
    later: Seq<(Text, V)>,
    both: Seq<(Text, V)>,
)
    requires
        table::ordered(first),
        table::ordered(later),
        table::ordered(both),
        covers(first, later, both),
    ensures
        prepass::overlaid(first, later, later.len()) == both,
{
    let merged = prepass::overlaid(first, later, later.len());
    assert(later.take(later.len() as int) =~= later);
    lemma_overlaid(first, later, later.len(), seq![]);
    assert forall|name: Text| #[trigger] table::lookup(merged, name) == table::lookup(
        both,
        name,
    ) by {
        lemma_overlaid(first, later, later.len(), name);
        assert(table::lookup(both, name) == over(first, later, name));
    }
    table::lemma_same_table(merged, both);
}

proof fn lemma_merged_lists(first: Lists, later: Lists, both: Lists)
    requires
        table::ordered(first),
        table::ordered(later),
        table::ordered(both),
        continues(first, later, both),
    ensures
        prepass::gathered_lists(first, later, later.len()) == both,
{
    let merged = prepass::gathered_lists(first, later, later.len());
    assert(later.take(later.len() as int) =~= later);
    lemma_gathered(first, later, later.len(), seq![]);
    assert forall|name: Text| #[trigger] table::lookup(merged, name) == table::lookup(
        both,
        name,
    ) by {
        lemma_gathered(first, later, later.len(), name);
        assert(table::lookup(both, name) == beyond(first, later, name));
    }
    table::lemma_same_table(merged, both);
}

proof fn lemma_merged(first: SharedV, later: SharedV, both: SharedV)
    requires
        onto(first, later, both),
    ensures
        first.merged(later) == both,
{
    lemma_merged_tables(first.constants, later.constants, both.constants);
    lemma_merged_tables(first.literal_fns, later.literal_fns, both.literal_fns);
    lemma_merged_tables(first.truncated, later.truncated, both.truncated);
    lemma_merged_tables(first.defined, later.defined, both.defined);
    lemma_merged_lists(first.calls, later.calls, both.calls);
    lemma_merged_lists(first.reads_env, later.reads_env, both.reads_env);
}

/// The files of the first `n` packages, in the order they are read.
pub open spec fn files_in(packages: Seq<Seq<ParsedV>>, n: nat) -> Seq<ParsedV>
    decreases n,
{
    if n == 0 {
        seq![]
    } else {
        files_in(packages, (n - 1) as nat) + packages[n - 1]
    }
}

/// What a reader finds in its packages, before anything is followed.
pub open spec fn found_by(packages: Seq<Seq<ParsedV>>) -> SharedV {
    FactsV::empty().packages(packages, packages.len()).held
}

/// What the first `n` readers found, merged in the order they read.
pub open spec fn found_together(readers: Seq<Seq<Seq<ParsedV>>>, n: nat) -> SharedV
    decreases n,
{
    if n == 0 {
        SharedV::empty()
    } else {
        found_together(readers, (n - 1) as nat).merged(found_by(readers[n - 1]))
    }
}

/// The files of the first `n` readers.
pub open spec fn files_together(readers: Seq<Seq<Seq<ParsedV>>>, n: nat) -> Seq<ParsedV>
    decreases n,
{
    if n == 0 {
        seq![]
    } else {
        files_together(readers, (n - 1) as nat) + files_in(readers[n - 1], readers[n - 1].len())
    }
}

/// Reading files is reading some of them and then the rest.
proof fn lemma_files_split(facts: FactsV, a: Seq<ParsedV>, b: Seq<ParsedV>, n: nat)
    requires
        n <= b.len(),
    ensures
        facts.files(a + b, a.len() + n) == facts.files(a, a.len()).files(b, n),
    decreases n,
{
    if n == 0 {
        lemma_files_front(facts, a, a + b, a.len());
    } else {
        lemma_files_split(facts, a, b, (n - 1) as nat);
        assert((a + b)[a.len() + n - 1] == b[n - 1]);
    }
}

proof fn lemma_files_front(facts: FactsV, a: Seq<ParsedV>, b: Seq<ParsedV>, n: nat)
    requires
        n <= a.len(),
        n <= b.len(),
        forall|i: int| 0 <= i < n ==> a[i] == b[i],
    ensures
        facts.files(b, n) == facts.files(a, n),
    decreases n,
{
    if n > 0 {
        lemma_files_front(facts, a, b, (n - 1) as nat);
    }
}

/// How files are grouped into packages makes no difference to what they say.
pub proof fn lemma_packages_are_files(facts: FactsV, packages: Seq<Seq<ParsedV>>, n: nat)
    requires
        n <= packages.len(),
    ensures
        facts.packages(packages, n) == facts.files(files_in(packages, n), files_in(packages, n).len()),
    decreases n,
{
    if n > 0 {
        lemma_packages_are_files(facts, packages, (n - 1) as nat);
        let before = files_in(packages, (n - 1) as nat);
        lemma_files_split(facts, before, packages[n - 1], packages[n - 1].len());
    }
}

proof fn lemma_tidy(files: Seq<ParsedV>, n: nat)
    requires
        n <= files.len(),
    ensures
        tidy(FactsV::empty().files(files, n).held),
{
    lemma_onto_files(FactsV::empty(), files, n);
}

/// Two sets of files gathered apart and merged in the order they were read hold
/// exactly what one pass over the same files in the same order holds.
pub proof fn lemma_gathered_apart(some: Seq<ParsedV>, rest: Seq<ParsedV>)
    ensures
        FactsV::empty().files(some, some.len()).held.merged(
            FactsV::empty().files(rest, rest.len()).held,
        ) == FactsV::empty().files(some + rest, (some + rest).len()).held,
{
    let known = FactsV::empty().files(some, some.len());
    lemma_tidy(some, some.len());
    lemma_files_split(FactsV::empty(), some, rest, rest.len());
    lemma_onto_files(known, rest, rest.len());
    lemma_merged(
        known.held,
        FactsV::empty().files(rest, rest.len()).held,
        known.files(rest, rest.len()).held,
    );
}

proof fn lemma_together(readers: Seq<Seq<Seq<ParsedV>>>, n: nat)
    requires
        n <= readers.len(),
    ensures
        ({
            let files = files_together(readers, n);
            found_together(readers, n) == FactsV::empty().files(files, files.len()).held
        }),
    decreases n,
{
    if n > 0 {
        lemma_together(readers, (n - 1) as nat);
        let before = files_together(readers, (n - 1) as nat);
        let more = files_in(readers[n - 1], readers[n - 1].len());
        lemma_packages_are_files(FactsV::empty(), readers[n - 1], readers[n - 1].len());
        lemma_gathered_apart(before, more);
    }
}

/// Read in pieces, a workspace says exactly what it says read whole: merged in
/// the order they read, what the readers found is what one reader finds in the
/// same files in the same order.
pub proof fn lemma_read_in_pieces(
    whole: Seq<Seq<ParsedV>>,
    readers: Seq<Seq<Seq<ParsedV>>>,
)
    requires
        files_in(whole, whole.len()) == files_together(readers, readers.len()),
    ensures
        found_together(readers, readers.len()) == found_by(whole),
{
    lemma_together(readers, readers.len());
    lemma_packages_are_files(FactsV::empty(), whole, whole.len());
}

// --- following ---------------------------------------------------------------

/// The functions that read the environment.
pub open spec fn marked(env: Lists) -> Set<Text> {
    Set::new(|name: Text| prepass::list_at(env, name).len() > 0)
}

/// Whether one function calls another, by bare name.
pub open spec fn calls_on(calls: Lists, caller: Text, callee: Text) -> bool {
    prepass::list_at(calls, caller).contains(callee)
}

/// Whether whoever calls one of them is one of them.
pub open spec fn closed(calls: Lists, some: Set<Text>) -> bool {
    forall|caller: Text, callee: Text| #[trigger]
        calls_on(calls, caller, callee) && some.contains(callee) ==> some.contains(caller)
}

proof fn lemma_gained_from(gained: Seq<Text>, known: Seq<Text>, vars: Seq<Text>, n: nat)
    requires
        n <= vars.len(),
    ensures
        prepass::gained_from(gained, known, vars, n).len() >= gained.len(),
        n == 0 ==> prepass::gained_from(gained, known, vars, n) == gained,
        n > 0 && known.len() == 0 ==> prepass::gained_from(gained, known, vars, n).len() > 0,
    decreases n,
{
    if n > 0 {
        lemma_gained_from(gained, known, vars, (n - 1) as nat);
    }
}

proof fn lemma_gained_by(env: Lists, known: Seq<Text>, callees: Seq<Text>, n: nat)
    requires
        n <= callees.len(),
    ensures
        prepass::gained_by(env, known, callees, n).len() > 0 ==> exists|i: int|
            0 <= i < n && prepass::list_at(env, #[trigger] callees[i]).len() > 0,
        known.len() == 0 ==> forall|i: int|
            0 <= i < n && prepass::list_at(env, #[trigger] callees[i]).len() > 0
                ==> prepass::gained_by(env, known, callees, n).len() > 0,
    decreases n,
{
    if n > 0 {
        lemma_gained_by(env, known, callees, (n - 1) as nat);
        let vars = prepass::list_at(env, callees[n - 1]);
        lemma_gained_from(
            prepass::gained_by(env, known, callees, (n - 1) as nat),
            known,
            vars,
            vars.len(),
        );
    }
}

/// A round marks no one but callers of the marked, and marks every one of
/// them.
proof fn lemma_round(calls: Lists, env: Lists, cut: Seq<(Text, ())>, most: nat, name: Text)
    requires
        table::ordered(calls),
        most > 0,
    ensures
        ({
            let after = prepass::round(calls, env, cut, most).0;
            marked(after).contains(name) <==> marked(env).contains(name) || exists|callee: Text|
                calls_on(calls, name, callee) && #[trigger] marked(env).contains(callee)
        }),
{
    let gained = prepass::gains(calls, env, calls.len());
    assert(calls.take(calls.len() as int) =~= calls);
    assert(gained.take(gained.len() as int) =~= gained);
    prepass::lemma_gains(calls, env, calls.len(), name);
    prepass::lemma_landed(env, cut, gained, most, gained.len(), name);
    let known = prepass::list_at(env, name);
    let callees = prepass::list_at(calls, name);
    lemma_gained_by(env, known, callees, callees.len());
    if exists|callee: Text|
        calls_on(calls, name, callee) && #[trigger] marked(env).contains(callee) {
        let callee = choose|callee: Text|
            calls_on(calls, name, callee) && #[trigger] marked(env).contains(callee);
        let i = choose|i: int| 0 <= i < callees.len() && callees[i] == callee;
        assert(prepass::list_at(env, callees[i]).len() > 0);
    }
    if prepass::gain_of(calls, env, calls.len(), name) is Some {
        let i = choose|i: int|
            0 <= i < callees.len() && prepass::list_at(env, #[trigger] callees[i]).len() > 0;
        assert(calls_on(calls, name, callees[i]));
        assert(marked(env).contains(callees[i]));
    }
}

proof fn lemma_rounds(
    calls: Lists,
    env: Lists,
    cut: Seq<(Text, ())>,
    most: nat,
    n: nat,
    limit: Set<Text>,
)
    requires
        table::ordered(calls),
        most > 0,
    ensures
        ({
            let after = prepass::rounds(calls, env, cut, most, n).0;
            &&& marked(env).subset_of(marked(after))
            &&& closed(calls, limit) && marked(env).subset_of(limit) ==> marked(after).subset_of(
                limit,
            )
        }),
    decreases n,
{
    if n > 0 {
        let (e, c) = prepass::round(calls, env, cut, most);
        lemma_rounds(calls, e, c, most, (n - 1) as nat, limit);
        assert forall|name: Text| #[trigger] marked(env).contains(name) implies marked(e).contains(
            name,
        ) by {
            lemma_round(calls, env, cut, most, name);
        }
        if closed(calls, limit) && marked(env).subset_of(limit) {
            assert forall|name: Text| #[trigger] marked(e).contains(name) implies limit.contains(
                name,
            ) by {
                lemma_round(calls, env, cut, most, name);
                if !marked(env).contains(name) {
                    let callee = choose|callee: Text|
                        calls_on(calls, name, callee) && #[trigger] marked(env).contains(callee);
                    assert(limit.contains(callee));
                    assert(calls_on(calls, name, callee));
                }
            }
        }
    }
}

/// Following marks exactly the functions from which one that reads the
/// environment is reached: all that read it, whoever calls a marked one, and
/// no other.
pub proof fn lemma_marks(
    calls: Lists,
    env: Lists,
    cut: Seq<(Text, ())>,
    most: nat,
    limit: Set<Text>,
)
    requires
        table::ordered(calls),
        table::ordered(cut),
        most > 0,
    ensures
        ({
            let all = marked(prepass::spread(calls, env, cut, most).0);
            &&& marked(env).subset_of(all)
            &&& closed(calls, all)
            &&& closed(calls, limit) && marked(env).subset_of(limit) ==> all.subset_of(limit)
        }),
{
    let n = prepass::lemma_settles(calls, env, cut, most);
    prepass::lemma_settled(calls, env, cut, most, n);
    lemma_rounds(calls, env, cut, most, n, limit);
    let (e, c) = prepass::spread(calls, env, cut, most);
    assert forall|caller: Text, callee: Text| #[trigger]
        calls_on(calls, caller, callee) && marked(e).contains(callee) implies marked(e).contains(
        caller,
    ) by {
        lemma_round(calls, e, c, most, caller);
    }
}

/// How many variables are kept against one function decides how many are
/// named, never which functions are marked.
pub proof fn lemma_bound_marks_the_same(
    calls: Lists,
    env: Lists,
    cut: Seq<(Text, ())>,
    most: nat,
    other: nat,
)
    requires
        table::ordered(calls),
        table::ordered(cut),
        most > 0,
        other > 0,
    ensures
        marked(prepass::spread(calls, env, cut, most).0) == marked(
            prepass::spread(calls, env, cut, other).0,
        ),
{
    let a = marked(prepass::spread(calls, env, cut, most).0);
    let b = marked(prepass::spread(calls, env, cut, other).0);
    lemma_marks(calls, env, cut, most, b);
    lemma_marks(calls, env, cut, other, a);
    assert(a =~= b);
}

/// What holds of one list through so many rounds.
proof fn lemma_kept(
    calls: Lists,
    env: Lists,
    cut: Seq<(Text, ())>,
    most: nat,
    n: nat,
    name: Text,
)
    requires
        table::ordered(calls),
    ensures
        ({
            let (followed, short) = prepass::rounds(calls, env, cut, most, n);
            let own = prepass::list_at(env, name);
            let all = prepass::list_at(followed, name);
            &&& own.is_prefix_of(all)
            &&& all.len() <= own.len() || all.len() <= most
            &&& table::lookup(short, name) is Some ==> table::lookup(cut, name) is Some
                || all.len() >= most
        }),
    decreases n,
{
    if n > 0 {
        let gained = prepass::gains(calls, env, calls.len());
        let (e, c) = prepass::round(calls, env, cut, most);
        assert(calls.take(calls.len() as int) =~= calls);
        assert(gained.take(gained.len() as int) =~= gained);
        prepass::lemma_gains(calls, env, calls.len(), name);
        prepass::lemma_landed(env, cut, gained, most, gained.len(), name);
        lemma_kept(calls, e, c, most, (n - 1) as nat, name);
        let own = prepass::list_at(env, name);
        let middle = prepass::list_at(e, name);
        let all = prepass::list_at(prepass::rounds(calls, env, cut, most, n).0, name);
        assert(own =~= middle.take(own.len() as int));
        assert(middle =~= all.take(middle.len() as int));
        assert(own =~= all.take(own.len() as int));
    }
}

/// A function that reads the environment itself keeps every variable it
/// reads, in front of those that it gains; following gains it no more than the
/// bound allows; and one that was cut short has as many as the bound allows.
pub proof fn lemma_direct_reads_kept(
    calls: Lists,
    env: Lists,
    cut: Seq<(Text, ())>,
    most: nat,
    name: Text,
)
    requires
        table::ordered(calls),
        table::ordered(cut),
    ensures
        ({
            let (followed, short) = prepass::spread(calls, env, cut, most);
            let own = prepass::list_at(env, name);
            let all = prepass::list_at(followed, name);
            &&& own.is_prefix_of(all)
            &&& all.len() <= own.len() || all.len() <= most
            &&& table::lookup(short, name) is Some ==> table::lookup(cut, name) is Some
                || all.len() >= most
        }),
{
    let n = prepass::lemma_settles(calls, env, cut, most);
    prepass::lemma_settled(calls, env, cut, most, n);
    lemma_kept(calls, env, cut, most, n, name);
}

// --- the order of merging ----------------------------------------------------

proof fn lemma_new_again(list: Seq<Text>, others: Seq<Text>, n: nat)
    requires
        n <= others.len(),
        forall|i: int| 0 <= i < n ==> list.contains(#[trigger] others[i]),
    ensures
        prepass::with_new(list, others, n) == list,
    decreases n,
{
    if n > 0 {
        lemma_new_again(list, others, (n - 1) as nat);
        assert(list.contains(others[n - 1]));
    }
}

/// What is new to one list and then to another is new to both at once.
proof fn lemma_new_twice(a: Seq<Text>, b: Seq<Text>, c: Seq<Text>, n: nat)
    requires
        n <= c.len(),
    ensures
        ({
            let bc = prepass::with_new(b, c, n);
            prepass::with_new(prepass::with_new(a, b, b.len()), c, n) == prepass::with_new(
                a,
                bc,
                bc.len(),
            )
        }),
    decreases n,
{
    if n > 0 {
        lemma_new_twice(a, b, c, (n - 1) as nat);
        let ab = prepass::with_new(a, b, b.len());
        let before = prepass::with_new(b, c, (n - 1) as nat);
        let after = prepass::with_new(b, c, n);
        let item = c[n - 1];
        lemma_new_holds(b, c, (n - 1) as nat, item);
        lemma_new_holds(a, b, b.len(), item);
        lemma_new_holds(ab, c, (n - 1) as nat, item);
        lemma_new_holds(a, before, before.len(), item);
        assert(b.take(b.len() as int) =~= b);
        assert(before.take(before.len() as int) =~= before);
        if !before.contains(item) {
            assert(after == before.push(item));
            assert(after.take(before.len() as int) =~= before.take(before.len() as int));
            lemma_new_prefix(a, after, before, before.len());
        }
    }
}

proof fn lemma_tables_grouped<V>(a: Seq<(Text, V)>, b: Seq<(Text, V)>, c: Seq<(Text, V)>)
    requires
        table::ordered(a),
        table::ordered(b),
        table::ordered(c),
    ensures
        ({
            let ab = prepass::overlaid(a, b, b.len());
            let bc = prepass::overlaid(b, c, c.len());
            prepass::overlaid(ab, c, c.len()) == prepass::overlaid(a, bc, bc.len())
        }),
{
    let ab = prepass::overlaid(a, b, b.len());
    let bc = prepass::overlaid(b, c, c.len());
    let one = prepass::overlaid(ab, c, c.len());
    assert(b.take(b.len() as int) =~= b);
    assert(c.take(c.len() as int) =~= c);
    lemma_overlaid(a, b, b.len(), seq![]);
    lemma_overlaid(b, c, c.len(), seq![]);
    lemma_overlaid(ab, c, c.len(), seq![]);
    assert forall|name: Text| #[trigger] table::lookup(one, name) == over(a, bc, name) by {
        lemma_overlaid(a, b, b.len(), name);
        lemma_overlaid(b, c, c.len(), name);
        lemma_overlaid(ab, c, c.len(), name);
    }
    lemma_merged_tables(a, bc, one);
}

proof fn lemma_lists_grouped(a: Lists, b: Lists, c: Lists)
    requires
        table::ordered(a),
        table::ordered(b),
        table::ordered(c),
    ensures
        ({
            let ab = prepass::gathered_lists(a, b, b.len());
            let bc = prepass::gathered_lists(b, c, c.len());
            prepass::gathered_lists(ab, c, c.len()) == prepass::gathered_lists(a, bc, bc.len())
        }),
{
    let ab = prepass::gathered_lists(a, b, b.len());
    let bc = prepass::gathered_lists(b, c, c.len());
    let one = prepass::gathered_lists(ab, c, c.len());
    assert(b.take(b.len() as int) =~= b);
    assert(c.take(c.len() as int) =~= c);
    lemma_gathered(a, b, b.len(), seq![]);
    lemma_gathered(b, c, c.len(), seq![]);
    lemma_gathered(ab, c, c.len(), seq![]);
    assert forall|name: Text| #[trigger] table::lookup(one, name) == beyond(a, bc, name) by {
        lemma_gathered(a, b, b.len(), name);
        lemma_gathered(b, c, c.len(), name);
        lemma_gathered(ab, c, c.len(), name);
        if let Some(items) = table::lookup(c, name) {
            let held = prepass::list_at(b, name);
            lemma_new_twice(prepass::list_at(a, name), held, items, items.len());
        }
    }
    lemma_merged_lists(a, bc, one);
}

/// It does not matter which of three findings are merged first, so long as they
/// keep their order.
pub proof fn lemma_merged_in_groups(a: SharedV, b: SharedV, c: SharedV)
    requires
        tidy(a),
        tidy(b),
        tidy(c),
    ensures
        a.merged(b).merged(c) == a.merged(b.merged(c)),
{
    lemma_tables_grouped(a.constants, b.constants, c.constants);
    lemma_tables_grouped(a.literal_fns, b.literal_fns, c.literal_fns);
    lemma_tables_grouped(a.truncated, b.truncated, c.truncated);
    lemma_tables_grouped(a.defined, b.defined, c.defined);
    lemma_lists_grouped(a.calls, b.calls, c.calls);
    lemma_lists_grouped(a.reads_env, b.reads_env, c.reads_env);
}

proof fn lemma_table_again<V>(a: Seq<(Text, V)>)
    requires
        table::ordered(a),
    ensures
        prepass::overlaid(a, a, a.len()) == a,
{
    lemma_merged_tables(a, a, a);
}

proof fn lemma_lists_again(a: Lists)
    requires
        table::ordered(a),
    ensures
        prepass::gathered_lists(a, a, a.len()) == a,
{
    assert forall|name: Text| #[trigger] table::lookup(a, name) == beyond(a, a, name) by {
        if let Some(items) = table::lookup(a, name) {
            lemma_new_again(items, items, items.len());
        }
    }
    lemma_merged_lists(a, a, a);
}

/// What is merged a second time says nothing new.
pub proof fn lemma_merged_again(a: SharedV)
    requires
        tidy(a),
    ensures
        a.merged(a) == a,
{
    lemma_table_again(a.constants);
    lemma_table_again(a.literal_fns);
    lemma_table_again(a.truncated);
    lemma_table_again(a.defined);
    lemma_lists_again(a.calls);
    lemma_lists_again(a.reads_env);
}

}
