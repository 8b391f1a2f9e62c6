//! A cheap pass over a workspace, collecting the few facts that let the main
//! one resolve a name it would otherwise report as unknown.

use vstd::prelude::*;

use crate::syntax::{self, Expression, Form, Part, Place, Tree, Import};
use crate::table::{self, Names, Table};
use crate::text::{self, Text};

verus! {

/// How many environment variables are worth naming against one function.
///
/// A function that reads more than this directly keeps every one of them. The
/// bound only refuses what propagation would pile on top.
pub const MOST_VARS: usize = 8;

/// What one reader must tell the others: everything that is keyed by a bare
/// name and means something across the whole workspace.
pub struct Shared {
    /// A constant and its string literal.
    pub constants: Table<String>,
    /// A function whose whole body is one string literal, and that literal.
    pub literal_fns: Table<String>,
    /// A function and those it calls, by bare name.
    pub calls: Table<Vec<String>>,
    /// A function and the environment variables it reads.
    pub reads_env: Table<Vec<String>>,
    /// The functions whose list of variables was cut short.
    pub truncated: Names,
    /// Every function name that is declared.
    pub defined: Names,
}

pub type Lists = Seq<(Text, Seq<Text>)>;

pub struct SharedV {
    pub constants: Seq<(Text, Text)>,
    pub literal_fns: Seq<(Text, Text)>,
    pub calls: Lists,
    pub reads_env: Lists,
    pub truncated: Seq<(Text, ())>,
    pub defined: Seq<(Text, ())>,
}

impl DeepView for Shared {
    type V = SharedV;

    open spec fn deep_view(&self) -> SharedV {
        SharedV {
            constants: self.constants.deep_view(),
            literal_fns: self.literal_fns.deep_view(),
            calls: self.calls.deep_view(),
            reads_env: self.reads_env.deep_view(),
            truncated: self.truncated.deep_view(),
            defined: self.defined.deep_view(),
        }
    }
}

impl SharedV {
    pub open spec fn empty() -> SharedV {
        SharedV {
            constants: seq![],
            literal_fns: seq![],
            calls: seq![],
            reads_env: seq![],
            truncated: seq![],
            defined: seq![],
        }
    }
}

/// The list under a name, or an empty one.
pub open spec fn list_at(lists: Lists, name: Text) -> Seq<Text> {
    match table::lookup(lists, name) {
        Some(list) => list,
        None => seq![],
    }
}

fn take_list(lists: &Table<Vec<String>>, name: &str) -> (list: Vec<String>)
    ensures
        list.deep_view() == list_at(lists.deep_view(), name@),
{
    match lists.get(name) {
        Some(list) => text::copy_list(list),
        None => {
            let none: Vec<String> = Vec::new();
            assert(none.deep_view() =~= seq![]);
            none
        },
    }
}

/// A list with one more entry, unless it has it.
pub open spec fn entered(list: Seq<Text>, item: Text) -> Seq<Text> {
    if list.contains(item) {
        list
    } else {
        list.push(item)
    }
}

/// The lists with one more entry under a name, unless it stands there.
pub open spec fn listed(lists: Lists, name: Text, item: Text) -> Lists {
    table::put(lists, name, entered(list_at(lists, name), item))
}

fn add_to(lists: &mut Table<Vec<String>>, name: &str, item: String)
    ensures
        final(lists).deep_view() == listed(old(lists).deep_view(), name@, item@),
{
    let mut list = take_list(lists, name);
    if !text::lists(&list, item.as_str()) {
        text::push(&mut list, item);
    }
    let _ = lists.insert(name.to_owned(), list);
}

// --- merging -----------------------------------------------------------------

/// The rows with the first `n` of others. Of a name that both have, the later
/// value stays.
pub open spec fn overlaid<V>(rows: Seq<(Text, V)>, others: Seq<(Text, V)>, n: nat) -> Seq<(Text, V)>
    decreases n,
{
    if n == 0 {
        rows
    } else {
        table::put(overlaid(rows, others, (n - 1) as nat), others[n - 1].0, others[n - 1].1)
    }
}

fn overlay(rows: &mut Table<String>, others: &Table<String>)
    ensures
        final(rows).deep_view() == overlaid(
            old(rows).deep_view(),
            others.deep_view(),
            others.deep_view().len(),
        ),
{
    let ghost start = rows.deep_view();
    let end: usize = others.len();
    let mut i: usize = 0;
    while i < end
        invariant
            i <= end == others.deep_view().len(),
            rows.deep_view() == overlaid(start, others.deep_view(), i as nat),
        decreases end - i,
    {
        let _ = rows.insert(others.name_at(i).clone(), others.value_at(i).clone());
        i += 1;
    }
}

fn overlay_names(rows: &mut Names, others: &Names)
    ensures
        final(rows).deep_view() == overlaid(
            old(rows).deep_view(),
            others.deep_view(),
            others.deep_view().len(),
        ),
{
    let ghost start = rows.deep_view();
    let end: usize = others.len();
    let mut i: usize = 0;
    while i < end
        invariant
            i <= end == others.deep_view().len(),
            rows.deep_view() == overlaid(start, others.deep_view(), i as nat),
        decreases end - i,
    {
        let _ = rows.insert(others.name_at(i).clone(), ());
        assert(others.deep_view()[i as int].1 == ());
        i += 1;
    }
}

/// A list with those of the first `n` others that it does not have.
pub open spec fn with_new(list: Seq<Text>, others: Seq<Text>, n: nat) -> Seq<Text>
    decreases n,
{
    if n == 0 {
        list
    } else {
        entered(with_new(list, others, (n - 1) as nat), others[n - 1])
    }
}

fn add_new(list: &mut Vec<String>, others: &Vec<String>)
    ensures
        final(list).deep_view() == with_new(
            old(list).deep_view(),
            others.deep_view(),
            others@.len(),
        ),
{
    let ghost start = list.deep_view();
    let mut i: usize = 0;
    while i < others.len()
        invariant
            i <= others.len(),
            list.deep_view() == with_new(start, others.deep_view(), i as nat),
        decreases others.len() - i,
    {
        assert(others.deep_view()[i as int] == others@[i as int]@);
        if !text::lists(&*list, others[i].as_str()) {
            text::push(list, others[i].clone());
        }
        i += 1;
    }
}

/// The lists with the first `n` of others, each taking what it does not have.
pub open spec fn gathered_lists(lists: Lists, others: Lists, n: nat) -> Lists
    decreases n,
{
    if n == 0 {
        lists
    } else {
        let before = gathered_lists(lists, others, (n - 1) as nat);
        let (name, items) = others[n - 1];
        table::put(before, name, with_new(list_at(before, name), items, items.len()))
    }
}

fn gather_lists(lists: &mut Table<Vec<String>>, others: &Table<Vec<String>>)
    ensures
        final(lists).deep_view() == gathered_lists(
            old(lists).deep_view(),
            others.deep_view(),
            others.deep_view().len(),
        ),
{
    let ghost start = lists.deep_view();
    let end: usize = others.len();
    let mut i: usize = 0;
    while i < end
        invariant
            i <= end == others.deep_view().len(),
            lists.deep_view() == gathered_lists(start, others.deep_view(), i as nat),
        decreases end - i,
    {
        let name = others.name_at(i);
        let mut held = take_list(lists, name.as_str());
        add_new(&mut held, others.value_at(i));
        let _ = lists.insert(name.clone(), held);
        i += 1;
    }
}

impl SharedV {
    pub open spec fn merged(self, other: SharedV) -> SharedV {
        SharedV {
            constants: overlaid(self.constants, other.constants, other.constants.len()),
            literal_fns: overlaid(self.literal_fns, other.literal_fns, other.literal_fns.len()),
            calls: gathered_lists(self.calls, other.calls, other.calls.len()),
            reads_env: gathered_lists(self.reads_env, other.reads_env, other.reads_env.len()),
            truncated: overlaid(self.truncated, other.truncated, other.truncated.len()),
            defined: overlaid(self.defined, other.defined, other.defined.len()),
        }
    }

    pub open spec fn followed(self) -> SharedV {
        let (reads_env, truncated) = spread(
            self.calls,
            self.reads_env,
            self.truncated,
            MOST_VARS as nat,
        );
        SharedV { reads_env, truncated, ..self }
    }
}

impl Default for Shared {
    fn default() -> (shared: Shared)
        ensures
            shared.deep_view() == SharedV::empty(),
    {
        Shared {
            constants: Table::new(),
            literal_fns: Table::new(),
            calls: Table::new(),
            reads_env: Table::new(),
            truncated: Table::new(),
            defined: Table::new(),
        }
    }
}

fn copy_texts(rows: &Table<String>) -> (out: Table<String>)
    ensures
        out.deep_view() == rows.deep_view(),
{
    let mut out: Table<String> = Table::new();
    overlay(&mut out, rows);
    let _ = rows.len();
    proof {
        lemma_overlay_empty(rows.deep_view(), rows.deep_view().len());
        assert(rows.deep_view().take(rows.deep_view().len() as int) =~= rows.deep_view());
    }
    out
}

fn copy_names(rows: &Names) -> (out: Names)
    ensures
        out.deep_view() == rows.deep_view(),
{
    let mut out: Names = Table::new();
    overlay_names(&mut out, rows);
    let _ = rows.len();
    proof {
        lemma_overlay_empty(rows.deep_view(), rows.deep_view().len());
        assert(rows.deep_view().take(rows.deep_view().len() as int) =~= rows.deep_view());
    }
    out
}

fn copy_lists(rows: &Table<Vec<String>>) -> (out: Table<Vec<String>>)
    ensures
        out.deep_view() == rows.deep_view(),
{
    let mut out: Table<Vec<String>> = Table::new();
    let end: usize = rows.len();
    let mut i: usize = 0;
    while i < end
        invariant
            i <= end == rows.deep_view().len(),
            out.deep_view() == overlaid(seq![], rows.deep_view(), i as nat),
        decreases end - i,
    {
        let _ = out.insert(rows.name_at(i).clone(), text::copy_list(rows.value_at(i)));
        i += 1;
    }
    proof {
        lemma_overlay_empty(rows.deep_view(), rows.deep_view().len());
        assert(rows.deep_view().take(rows.deep_view().len() as int) =~= rows.deep_view());
    }
    out
}

impl Shared {
    /// Takes on everything another reader said. Later wins, as a later file
    /// wins within one pass; lists are extended, and repeats dropped.
    pub fn merge(&mut self, other: &Shared)
        ensures
            final(self).deep_view() == old(self).deep_view().merged(other.deep_view()),
    {
        overlay(&mut self.constants, &other.constants);
        overlay(&mut self.literal_fns, &other.literal_fns);
        gather_lists(&mut self.calls, &other.calls);
        gather_lists(&mut self.reads_env, &other.reads_env);
        overlay_names(&mut self.truncated, &other.truncated);
        overlay_names(&mut self.defined, &other.defined);
    }

    pub fn copy(&self) -> (shared: Shared)
        ensures
            shared.deep_view() == self.deep_view(),
    {
        Shared {
            constants: copy_texts(&self.constants),
            literal_fns: copy_texts(&self.literal_fns),
            calls: copy_lists(&self.calls),
            reads_env: copy_lists(&self.reads_env),
            truncated: copy_names(&self.truncated),
            defined: copy_names(&self.defined),
        }
    }

    /// Follows calls, so that a function that calls a function that reads the
    /// environment is marked too.
    pub fn resolve(&mut self)
        ensures
            final(self).deep_view() == old(self).deep_view().followed(),
    {
        propagate_env(&self.calls, &mut self.reads_env, &mut self.truncated);
    }
}

// --- following calls ---------------------------------------------------------

/// What a caller gains from the first `n` variables of one it calls: those it
/// neither knows nor has gained.
pub open spec fn gained_from(gained: Seq<Text>, known: Seq<Text>, vars: Seq<Text>, n: nat) -> Seq<
    Text,
>
    decreases n,
{
    if n == 0 {
        gained
    } else {
        let before = gained_from(gained, known, vars, (n - 1) as nat);
        let var = vars[n - 1];
        if known.contains(var) || before.contains(var) {
            before
        } else {
            before.push(var)
        }
    }
}

/// What a caller gains from the first `n` it calls, in the order it names
/// them.
pub open spec fn gained_by(env: Lists, known: Seq<Text>, callees: Seq<Text>, n: nat) -> Seq<Text>
    decreases n,
{
    if n == 0 {
        seq![]
    } else {
        let vars = list_at(env, callees[n - 1]);
        gained_from(gained_by(env, known, callees, (n - 1) as nat), known, vars, vars.len())
    }
}

/// What the first `n` callers gain, those that gain anything.
pub open spec fn gains(calls: Lists, env: Lists, n: nat) -> Lists
    decreases n,
{
    if n == 0 {
        seq![]
    } else {
        let before = gains(calls, env, (n - 1) as nat);
        let (caller, callees) = calls[n - 1];
        let gained = gained_by(env, list_at(env, caller), callees, callees.len());
        if gained.len() == 0 {
            before
        } else {
            before.push((caller, gained))
        }
    }
}

/// A list with what it has room for of some others.
pub open spec fn filled(held: Seq<Text>, gained: Seq<Text>, most: nat) -> Seq<Text> {
    if held.len() >= most {
        held
    } else if held.len() + gained.len() <= most {
        held + gained
    } else {
        held + gained.take(most - held.len())
    }
}

/// The lists, and the names of those that were cut short, after the first `n`
/// gains have landed. A list that is full keeps what it has.
pub open spec fn landed(
    env: Lists,
    cut: Seq<(Text, ())>,
    gains: Lists,
    most: nat,
    n: nat,
) -> (Lists, Seq<(Text, ())>)
    decreases n,
{
    if n == 0 {
        (env, cut)
    } else {
        let (e, c) = landed(env, cut, gains, most, (n - 1) as nat);
        let (caller, gained) = gains[n - 1];
        let held = list_at(e, caller);
        (
            if held.len() >= most {
                e
            } else {
                table::put(e, caller, filled(held, gained, most))
            },
            if gained.len() > 0 && held.len() + gained.len() > most {
                table::put(c, caller, ())
            } else {
                c
            },
        )
    }
}

/// One round: every caller gains what those it calls had when it began.
pub open spec fn round(calls: Lists, env: Lists, cut: Seq<(Text, ())>, most: nat) -> (
    Lists,
    Seq<(Text, ())>,
) {
    let gained = gains(calls, env, calls.len());
    landed(env, cut, gained, most, gained.len())
}

pub open spec fn rounds(
    calls: Lists,
    env: Lists,
    cut: Seq<(Text, ())>,
    most: nat,
    n: nat,
) -> (Lists, Seq<(Text, ())>)
    decreases n,
{
    if n == 0 {
        (env, cut)
    } else {
        let (e, c) = round(calls, env, cut, most);
        rounds(calls, e, c, most, (n - 1) as nat)
    }
}

/// Whether nothing changes any more after so many rounds.
pub open spec fn settled(
    calls: Lists,
    env: Lists,
    cut: Seq<(Text, ())>,
    most: nat,
    n: nat,
) -> bool {
    let (e, c) = rounds(calls, env, cut, most, n);
    round(calls, e, c, most) == (e, c)
}

/// Rounds until nothing changes any more.
pub open spec fn spread(calls: Lists, env: Lists, cut: Seq<(Text, ())>, most: nat) -> (
    Lists,
    Seq<(Text, ())>,
) {
    rounds(calls, env, cut, most, choose|n: nat| settled(calls, env, cut, most, n))
}

fn gain_for(env: &Table<Vec<String>>, known: &Vec<String>, callees: &Vec<String>) -> (gained: Vec<
    String,
>)
    ensures
        gained.deep_view() == gained_by(
            env.deep_view(),
            known.deep_view(),
            callees.deep_view(),
            callees@.len(),
        ),
{
    let mut gained: Vec<String> = Vec::new();
    assert(gained.deep_view() =~= seq![]);
    let mut i: usize = 0;
    while i < callees.len()
        invariant
            i <= callees.len(),
            gained.deep_view() == gained_by(
                env.deep_view(),
                known.deep_view(),
                callees.deep_view(),
                i as nat,
            ),
        decreases callees.len() - i,
    {
        assert(callees.deep_view()[i as int] == callees@[i as int]@);
        let ghost before = gained.deep_view();
        if let Some(vars) = env.get(callees[i].as_str()) {
            let mut j: usize = 0;
            while j < vars.len()
                invariant
                    j <= vars.len(),
                    gained.deep_view() == gained_from(
                        before,
                        known.deep_view(),
                        vars.deep_view(),
                        j as nat,
                    ),
                decreases vars.len() - j,
            {
                assert(vars.deep_view()[j as int] == vars@[j as int]@);
                let var = vars[j].as_str();
                if !text::lists(known, var) && !text::lists(&gained, var) {
                    text::push(&mut gained, vars[j].clone());
                }
                j += 1;
            }
        }
        i += 1;
    }
    gained
}

fn find_gains(calls: &Table<Vec<String>>, env: &Table<Vec<String>>) -> (out: Vec<
    (String, Vec<String>),
>)
    ensures
        out.deep_view() == gains(calls.deep_view(), env.deep_view(), calls.deep_view().len()),
{
    let mut out: Vec<(String, Vec<String>)> = Vec::new();
    assert(out.deep_view() =~= seq![]);
    let end: usize = calls.len();
    let mut i: usize = 0;
    while i < end
        invariant
            i <= end == calls.deep_view().len(),
            out.deep_view() == gains(calls.deep_view(), env.deep_view(), i as nat),
        decreases end - i,
    {
        let caller = calls.name_at(i);
        let known = take_list(env, caller.as_str());
        let gained = gain_for(env, &known, calls.value_at(i));
        if gained.len() > 0 {
            text::push(&mut out, (caller.clone(), gained));
        }
        i += 1;
    }
    out
}

/// What one caller gains in a round.
pub open spec fn gain_of(calls: Lists, env: Lists, n: nat, name: Text) -> Option<Seq<Text>> {
    match table::lookup(calls.take(n as int), name) {
        Some(callees) => {
            let gained = gained_by(
                env,
                list_at(env, name),
                callees,
                callees.len(),
            );
            if gained.len() == 0 {
                None
            } else {
                Some(gained)
            }
        },
        None => None,
    }
}

/// A round's gains, by who gains them.
pub proof fn lemma_gains(calls: Lists, env: Lists, n: nat, name: Text)
    requires
        table::ordered(calls),
        n <= calls.len(),
    ensures
        table::ordered(gains(calls, env, n)),
        forall|i: int|
            0 <= i < gains(calls, env, n).len() ==> exists|j: int|
                0 <= j < n && #[trigger] calls[j].0 == #[trigger] gains(calls, env, n)[i].0,
        forall|i: int|
            0 <= i < gains(calls, env, n).len() ==> (#[trigger] gains(calls, env, n)[i]).1.len() > 0,
        table::lookup(gains(calls, env, n), name) == gain_of(calls, env, n, name),
    decreases n,
{
    if n == 0 {
        assert(calls.take(0) =~= seq![]);
    } else {
        let before = gains(calls, env, (n - 1) as nat);
        let after = gains(calls, env, n);
        lemma_gains(calls, env, (n - 1) as nat, name);
        lemma_gains(calls, env, (n - 1) as nat, calls[n - 1].0);
        table::lemma_take_one_more(calls, n, name);
        let (caller, callees) = calls[n - 1];
        let gained = gained_by(
            env,
            list_at(env, caller),
            callees,
            callees.len(),
        );
        if gained.len() > 0 {
            table::lemma_lookup_push(before, (caller, gained), name);
        }
        assert forall|i: int, j: int| 0 <= i < j < after.len() implies text::less(
            #[trigger] after[i].0,
            #[trigger] after[j].0,
        ) by {
            if j < before.len() {
                assert(text::less(before[i].0, before[j].0));
            } else {
                assert(after[i] == before[i]);
                let k = choose|k: int| 0 <= k < n - 1 && #[trigger] calls[k].0 == before[i].0;
                assert(text::less(calls[k].0, calls[n - 1].0));
            }
        }
        assert forall|i: int| 0 <= i < after.len() implies exists|j: int|
            0 <= j < n && #[trigger] calls[j].0 == #[trigger] after[i].0 by {
            if i < before.len() {
                assert(after[i] == before[i]);
                let k = choose|k: int| 0 <= k < n - 1 && #[trigger] calls[k].0 == before[i].0;
                assert(calls[k].0 == after[i].0);
            } else {
                assert(calls[n - 1].0 == after[i].0);
            }
        }
    }
}

/// What a list is after gains have landed, and whether it was cut short.
pub proof fn lemma_landed(
    env: Lists,
    cut: Seq<(Text, ())>,
    gains: Lists,
    most: nat,
    n: nat,
    name: Text,
)
    requires
        table::ordered(gains),
        n <= gains.len(),
    ensures
        list_at(landed(env, cut, gains, most, n).0, name) == (match table::lookup(
            gains.take(n as int),
            name,
        ) {
            Some(gained) => filled(list_at(env, name), gained, most),
            None => list_at(env, name),
        }),
        table::lookup(landed(env, cut, gains, most, n).1, name) is Some ==> (table::lookup(
            cut,
            name,
        ) is Some || list_at(landed(env, cut, gains, most, n).0, name).len() >= most),
        table::lookup(cut, name) is Some ==> table::lookup(
            landed(env, cut, gains, most, n).1,
            name,
        ) is Some,
        table::lookup(gains.take(n as int), name) is None ==> table::lookup(
            landed(env, cut, gains, most, n).1,
            name,
        ) == table::lookup(cut, name),
        (match table::lookup(gains.take(n as int), name) {
            Some(gained) => gained.len() > 0 && list_at(env, name).len() >= most,
            None => false,
        }) ==> table::lookup(landed(env, cut, gains, most, n).1, name) is Some,
    decreases n,
{
    if n == 0 {
        assert(gains.take(0) =~= seq![]);
    } else {
        let (e, c) = landed(env, cut, gains, most, (n - 1) as nat);
        let (caller, gained) = gains[n - 1];
        lemma_landed(env, cut, gains, most, (n - 1) as nat, name);
        lemma_landed(env, cut, gains, most, (n - 1) as nat, caller);
        table::lemma_take_one_more(gains, n, name);
        let held = list_at(e, caller);
        table::lemma_put_lookup(e, caller, filled(held, gained, most), name);
        table::lemma_put_lookup(c, caller, (), name);
    }
}

/// Whether a caller that gains something is changed by it.
pub open spec fn moves(env: Lists, cut: Seq<(Text, ())>, most: nat, caller: Text) -> bool {
    list_at(env, caller).len() < most || table::lookup(cut, caller) is None
}

pub open spec fn any_moves(
    env: Lists,
    cut: Seq<(Text, ())>,
    gains: Lists,
    most: nat,
    n: nat,
) -> bool {
    exists|i: int| 0 <= i < n && moves(env, cut, most, (#[trigger] gains[i]).0)
}

/// Where no gain changes its caller, nothing changes.
proof fn lemma_nothing_moves(
    env: Lists,
    cut: Seq<(Text, ())>,
    gains: Lists,
    most: nat,
    n: nat,
)
    requires
        table::ordered(cut),
        n <= gains.len(),
        !any_moves(env, cut, gains, most, n),
    ensures
        landed(env, cut, gains, most, n) == (env, cut),
    decreases n,
{
    if n > 0 {
        assert(!any_moves(env, cut, gains, most, (n - 1) as nat));
        lemma_nothing_moves(env, cut, gains, most, (n - 1) as nat);
        let caller = gains[n - 1].0;
        assert(!moves(env, cut, most, caller));
        assert(table::lookup(cut, caller)->0 == ());
        table::lemma_put_same(cut, caller, ());
    }
}

/// How much is left to happen at the first `n` callers.
pub open spec fn left_over(calls: Lists, env: Lists, cut: Seq<(Text, ())>, most: nat, n: nat) -> nat
    decreases n,
{
    if n == 0 {
        0
    } else {
        left_over(calls, env, cut, most, (n - 1) as nat) + left_at(
            env,
            cut,
            most,
            calls[n - 1].0,
        )
    }
}

pub open spec fn left_at(env: Lists, cut: Seq<(Text, ())>, most: nat, caller: Text) -> nat {
    let held = list_at(env, caller).len();
    (if held < most {
        (most - held) as nat
    } else {
        0
    }) + (if table::lookup(cut, caller) is None {
        1nat
    } else {
        0nat
    })
}

/// A round leaves no more to happen at any caller, and less at one that it
/// moves.
proof fn lemma_less_left(calls: Lists, env: Lists, cut: Seq<(Text, ())>, most: nat, name: Text)
    requires
        table::ordered(calls),
    ensures
        ({
            let gained = gains(calls, env, calls.len());
            let (e, c) = round(calls, env, cut, most);
            &&& left_at(e, c, most, name) <= left_at(env, cut, most, name)
            &&& table::lookup(gained, name) is Some && moves(env, cut, most, name) ==> left_at(
                e,
                c,
                most,
                name,
            ) < left_at(env, cut, most, name)
        }),
{
    let gained = gains(calls, env, calls.len());
    lemma_gains(calls, env, calls.len(), name);
    assert(gained.take(gained.len() as int) =~= gained);
    lemma_landed(env, cut, gained, most, gained.len(), name);
}

proof fn lemma_less_left_over(
    calls: Lists,
    env: Lists,
    cut: Seq<(Text, ())>,
    most: nat,
    n: nat,
    at: int,
)
    requires
        table::ordered(calls),
        n <= calls.len(),
    ensures
        ({
            let (e, c) = round(calls, env, cut, most);
            let gained = gains(calls, env, calls.len());
            &&& left_over(calls, e, c, most, n) <= left_over(calls, env, cut, most, n)
            &&& 0 <= at < n && table::lookup(gained, calls[at].0) is Some && moves(
                env,
                cut,
                most,
                calls[at].0,
            ) ==> left_over(calls, e, c, most, n) < left_over(calls, env, cut, most, n)
        }),
    decreases n,
{
    if n > 0 {
        lemma_less_left_over(calls, env, cut, most, (n - 1) as nat, at);
        lemma_less_left(calls, env, cut, most, calls[n - 1].0);
    }
}

/// A round in which anything moves leaves less to happen.
proof fn lemma_progress(calls: Lists, env: Lists, cut: Seq<(Text, ())>, most: nat)
    requires
        table::ordered(calls),
        any_moves(
            env,
            cut,
            gains(calls, env, calls.len()),
            most,
            gains(calls, env, calls.len()).len(),
        ),
    ensures
        ({
            let (e, c) = round(calls, env, cut, most);
            left_over(calls, e, c, most, calls.len()) < left_over(
                calls,
                env,
                cut,
                most,
                calls.len(),
            )
        }),
{
    let gained = gains(calls, env, calls.len());
    let i = choose|i: int| 0 <= i < gained.len() && moves(env, cut, most, (#[trigger] gained[i]).0);
    lemma_gains(calls, env, calls.len(), gained[i].0);
    table::lemma_lookup_found(gained, i);
    let at = choose|j: int|
        0 <= j < calls.len() && #[trigger] calls[j].0 == gained[i].0;
    lemma_less_left_over(calls, env, cut, most, calls.len(), at);
}

/// One more round at the end is one more round.
proof fn lemma_one_more_round(
    calls: Lists,
    env: Lists,
    cut: Seq<(Text, ())>,
    most: nat,
    n: nat,
)
    ensures
        ({
            let (e, c) = rounds(calls, env, cut, most, n);
            rounds(calls, env, cut, most, n + 1) == round(calls, e, c, most)
        }),
    decreases n,
{
    let (e, c) = round(calls, env, cut, most);
    if n > 0 {
        lemma_one_more_round(calls, e, c, most, (n - 1) as nat);
    } else {
        assert(rounds(calls, e, c, most, 0) == (e, c));
    }
}

/// Once settled, more rounds change nothing.
proof fn lemma_stays_settled(
    calls: Lists,
    env: Lists,
    cut: Seq<(Text, ())>,
    most: nat,
    n: nat,
    m: nat,
)
    requires
        settled(calls, env, cut, most, n),
        n <= m,
    ensures
        rounds(calls, env, cut, most, m) == rounds(calls, env, cut, most, n),
    decreases m,
{
    if n < m {
        lemma_stays_settled(calls, env, cut, most, n, (m - 1) as nat);
        lemma_one_more_round(calls, env, cut, most, (m - 1) as nat);
    }
}

/// However many rounds it was settled after, it settled to the same.
pub proof fn lemma_settled(calls: Lists, env: Lists, cut: Seq<(Text, ())>, most: nat, n: nat)
    requires
        settled(calls, env, cut, most, n),
    ensures
        rounds(calls, env, cut, most, n) == spread(calls, env, cut, most),
{
    let m = choose|m: nat| settled(calls, env, cut, most, m);
    assert(settled(calls, env, cut, most, m));
    if n <= m {
        lemma_stays_settled(calls, env, cut, most, n, m);
    } else {
        lemma_stays_settled(calls, env, cut, most, m, n);
    }
}

/// It always settles.
pub proof fn lemma_settles(calls: Lists, env: Lists, cut: Seq<(Text, ())>, most: nat) -> (n: nat)
    requires
        table::ordered(calls),
        table::ordered(cut),
    ensures
        settled(calls, env, cut, most, n),
    decreases left_over(calls, env, cut, most, calls.len()),
{
    let gained = gains(calls, env, calls.len());
    if any_moves(env, cut, gained, most, gained.len()) {
        lemma_progress(calls, env, cut, most);
        let (e, c) = round(calls, env, cut, most);
        lemma_gains(calls, env, calls.len(), seq![]);
        lemma_cut_ordered(env, cut, gained, most, gained.len());
        let n = lemma_settles(calls, e, c, most);
        n + 1
    } else {
        lemma_nothing_moves(env, cut, gained, most, gained.len());
        assert(rounds(calls, env, cut, most, 0) == (env, cut));
        0
    }
}

proof fn lemma_cut_ordered(
    env: Lists,
    cut: Seq<(Text, ())>,
    gains: Lists,
    most: nat,
    n: nat,
)
    requires
        table::ordered(cut),
        n <= gains.len(),
    ensures
        table::ordered(landed(env, cut, gains, most, n).1),
    decreases n,
{
    if n > 0 {
        lemma_cut_ordered(env, cut, gains, most, (n - 1) as nat);
        table::lemma_put_ordered(
            landed(env, cut, gains, most, (n - 1) as nat).1,
            gains[n - 1].0,
            (),
        );
    }
}

/// One walk to a fixpoint, over whichever maps are handed to it.
fn propagate_env(
    calls: &Table<Vec<String>>,
    reads_env: &mut Table<Vec<String>>,
    truncated: &mut Names,
)
    ensures
        (final(reads_env).deep_view(), final(truncated).deep_view()) == spread(
            calls.deep_view(),
            old(reads_env).deep_view(),
            old(truncated).deep_view(),
            MOST_VARS as nat,
        ),
{
    let ghost env = reads_env.deep_view();
    let ghost cut = truncated.deep_view();
    let ghost mut n: nat = 0;
    let _ = calls.len();
    loop
        invariant
            table::ordered(calls.deep_view()),
            env == old(reads_env).deep_view(),
            cut == old(truncated).deep_view(),
            rounds(calls.deep_view(), env, cut, MOST_VARS as nat, n) == (
                reads_env.deep_view(),
                truncated.deep_view(),
            ),
        decreases
                left_over(
                    calls.deep_view(),
                    reads_env.deep_view(),
                    truncated.deep_view(),
                    MOST_VARS as nat,
                    calls.deep_view().len(),
                ),
    {
        let ghost e = reads_env.deep_view();
        let ghost c = truncated.deep_view();
        let _ = truncated.len();
        let found = find_gains(calls, &*reads_env);
        proof {
            lemma_gains(calls.deep_view(), e, calls.deep_view().len(), seq![]);
        }
        let moved = land(reads_env, truncated, &found);
        proof {
            lemma_one_more_round(calls.deep_view(), env, cut, MOST_VARS as nat, n);
        }
        if !moved {
            proof {
                lemma_nothing_moves(e, c, found.deep_view(), MOST_VARS as nat, found@.len());
                lemma_settled(calls.deep_view(), env, cut, MOST_VARS as nat, n);
            }
            return;
        }
        proof {
            lemma_progress(calls.deep_view(), e, c, MOST_VARS as nat);
            n = n + 1;
        }
    }
}

/// Hands callers what they gained, and says whether that changed anything.
fn land(
    reads_env: &mut Table<Vec<String>>,
    truncated: &mut Names,
    found: &Vec<(String, Vec<String>)>,
) -> (moved: bool)
    requires
        table::ordered(found.deep_view()),
        forall|i: int| 0 <= i < found@.len() ==> (#[trigger] found.deep_view()[i]).1.len() > 0,
    ensures
        (final(reads_env).deep_view(), final(truncated).deep_view()) == landed(
            old(reads_env).deep_view(),
            old(truncated).deep_view(),
            found.deep_view(),
            MOST_VARS as nat,
            found@.len(),
        ),
        moved == any_moves(
            old(reads_env).deep_view(),
            old(truncated).deep_view(),
            found.deep_view(),
            MOST_VARS as nat,
            found@.len(),
        ),
{
    let ghost env = reads_env.deep_view();
    let ghost cut = truncated.deep_view();
    let ghost all = found.deep_view();
    let mut moved = false;
    let mut i: usize = 0;
    while i < found.len()
        invariant
            i <= found.len(),
            all == found.deep_view(),
            env == old(reads_env).deep_view(),
            cut == old(truncated).deep_view(),
            table::ordered(all),
            forall|k: int| 0 <= k < found@.len() ==> (#[trigger] all[k]).1.len() > 0,
            (reads_env.deep_view(), truncated.deep_view()) == landed(
                env,
                cut,
                all,
                MOST_VARS as nat,
                i as nat,
            ),
            moved == any_moves(env, cut, all, MOST_VARS as nat, i as nat),
        decreases found.len() - i,
    {
        let caller = &found[i].0;
        let gained = &found[i].1;
        assert(all[i as int] == (caller@, gained.deep_view()));
        proof {
            lemma_landed(env, cut, all, MOST_VARS as nat, i as nat, caller@);
            table::lemma_take_one_more(all, (i + 1) as nat, caller@);
        }
        let mut held = take_list(reads_env, caller.as_str());
        let ghost start = held.deep_view();
        assert(start == list_at(env, caller@));
        if held.len() < MOST_VARS {
            moved = true;
            let mut j: usize = 0;
            assert(start =~= start + gained.deep_view().take(0));
            while j < gained.len() && held.len() < MOST_VARS
                invariant
                    j <= gained.len(),
                    held.deep_view() == start + gained.deep_view().take(j as int),
                    held.len() <= MOST_VARS,
                decreases gained.len() - j,
            {
                text::push(&mut held, gained[j].clone());
                assert(held.deep_view() =~= start + gained.deep_view().take(j + 1));
                j += 1;
            }
            if j < gained.len() {
                let _ = truncated.insert(caller.clone(), ());
            }
            proof {
                assert(held.deep_view().len() == start.len() + j);
                assert(gained.deep_view().take(gained@.len() as int) =~= gained.deep_view());
                assert(held.deep_view() =~= filled(start, gained.deep_view(), MOST_VARS as nat));
            }
            let _ = reads_env.insert(caller.clone(), held);
        } else {
            if truncated.insert(caller.clone(), ()).is_none() {
                moved = true;
            }
        }
        proof {
            assert(moves(env, cut, MOST_VARS as nat, all[i as int].0) ==> any_moves(
                env,
                cut,
                all,
                MOST_VARS as nat,
                (i + 1) as nat,
            ));
            if any_moves(env, cut, all, MOST_VARS as nat, (i + 1) as nat) {
                let k = choose|k: int|
                    0 <= k < i + 1 && moves(env, cut, MOST_VARS as nat, (#[trigger] all[k]).0);
                assert(k < i ==> any_moves(env, cut, all, MOST_VARS as nat, i as nat));
            }
            if any_moves(env, cut, all, MOST_VARS as nat, i as nat) {
                let k = choose|k: int|
                    0 <= k < i && moves(env, cut, MOST_VARS as nat, (#[trigger] all[k]).0);
                assert(any_moves(env, cut, all, MOST_VARS as nat, (i + 1) as nat));
            }
        }
        i += 1;
    }
    moved
}

/// A table laid over an empty one is itself.
proof fn lemma_overlay_empty<V>(rows: Seq<(Text, V)>, n: nat)
    requires
        n <= rows.len(),
        table::ordered(rows),
    ensures
        overlaid(seq![], rows, n) == rows.take(n as int),
    decreases n,
{
    if n == 0 {
        assert(rows.take(0) =~= seq![]);
    } else {
        lemma_overlay_empty(rows, (n - 1) as nat);
        table::lemma_put_last(rows.take(n - 1), rows[n - 1].0, rows[n - 1].1);
        assert(rows.take(n - 1).push(rows[n - 1]) =~= rows.take(n as int));
    }
}

// --- gathering ---------------------------------------------------------------

/// What is known before anything is followed: what every reader shares, and
/// the names each file gave to something else, which are its own.
pub struct PackageFacts {
    pub aliases: Table<Table<String>>,
    pub held: Shared,
}

pub struct FactsV {
    pub aliases: Seq<(Text, Seq<(Text, Text)>)>,
    pub held: SharedV,
}

impl DeepView for PackageFacts {
    type V = FactsV;

    open spec fn deep_view(&self) -> FactsV {
        FactsV { aliases: self.aliases.deep_view(), held: self.held.deep_view() }
    }
}

impl FactsV {
    pub open spec fn empty() -> FactsV {
        FactsV { aliases: seq![], held: SharedV::empty() }
    }

    pub open spec fn aliases_for(self, path: Text) -> Seq<(Text, Text)> {
        match table::lookup(self.aliases, path) {
            Some(names) => names,
            None => seq![],
        }
    }
}

/// What has been read so far, and what the file being read has renamed.
pub struct Found {
    pub held: SharedV,
    pub renamed: Seq<(Text, Text)>,
}

/// The names that a `use` gives to something else. Only `as` renames.
pub open spec fn renamings(tree: Import, prefix: Seq<Text>, out: Seq<(Text, Text)>) -> Seq<
    (Text, Text),
>
    decreases tree, 0nat,
{
    match tree {
        Import::Path(name, inner) => renamings(*inner, prefix.push(name@), out),
        Import::Rename { name, rename } => table::put(
            out,
            rename@,
            syntax::dotted(prefix.push(name@)),
        ),
        Import::Group(items) => renamings_in(items@, prefix, out, items@.len()),
        Import::Name(_) => out,
        Import::Glob => out,
    }
}

pub open spec fn renamings_in(
    items: Seq<Import>,
    prefix: Seq<Text>,
    out: Seq<(Text, Text)>,
    n: nat,
) -> Seq<(Text, Text)>
    decreases items, n,
{
    if n == 0 || n > items.len() {
        out
    } else {
        renamings(items[n - 1], prefix, renamings_in(items, prefix, out, (n - 1) as nat))
    }
}

fn walk_use(tree: &Import, prefix: &Vec<String>, out: &mut Table<String>)
    ensures
        final(out).deep_view() == renamings(*tree, prefix.deep_view(), old(out).deep_view()),
    decreases tree,
{
    match tree {
        Import::Path(name, inner) => {
            let longer = syntax::extended(prefix, name.as_str());
            walk_use(inner, &longer, out);
        },
        Import::Rename { name, rename } => {
            let full = syntax::extended(prefix, name.as_str());
            let _ = out.insert(rename.clone(), text::join(&full, "::"));
        },
        Import::Group(items) => {
            let ghost start = out.deep_view();
            let mut i: usize = 0;
            while i < items.len()
                invariant
                    i <= items.len(),
                    *tree == Import::Group(*items),
                    out.deep_view() == renamings_in(items@, prefix.deep_view(), start, i as nat),
                decreases items.len() - i,
            {
                assert(decreases_to!(*tree => tree->Group_0));
                assert(decreases_to!(*items => items@));
                assert(decreases_to!(items@ => items@[i as int]));
                walk_use(&items[i], prefix, out);
                i += 1;
            }
        },
        Import::Name(_) => {},
        Import::Glob => {},
    }
}

impl Found {
    /// A constant, where it is a string literal.
    pub open spec fn constant(self, name: Text, value: Expression) -> Found {
        match syntax::literal(value) {
            Some(s) => Found {
                held: SharedV { constants: table::put(self.held.constants, name, s), ..self.held },
                ..self
            },
            None => self,
        }
    }

    /// A function, and what it is where its body is just a literal.
    pub open spec fn function(self, f: syntax::Function) -> Found {
        let defined = table::put(self.held.defined, f.name@, ());
        let literal_fns = match syntax::sole_literal(f.body@) {
            Some(s) => table::put(self.held.literal_fns, f.name@, s),
            None => self.held.literal_fns,
        };
        Found { held: SharedV { defined, literal_fns, ..self.held }, ..self }
    }

    /// A call made in a function. `env::var("X")` makes the function one that
    /// reads `X`.
    pub open spec fn call(self, owner: Option<Text>, func: Expression, args: Seq<Expression>) -> Found {
        match (owner, syntax::name_of(func)) {
            (Some(caller), Some(callee)) => {
                let reads_env = if (callee == "var"@ || callee == "var_os"@) && args.len() > 0 {
                    match args[0] {
                        Expression::Str(s) => listed(self.held.reads_env, caller, s@),
                        _ => self.held.reads_env,
                    }
                } else {
                    self.held.reads_env
                };
                Found {
                    held: SharedV {
                        reads_env,
                        calls: listed(self.held.calls, caller, callee),
                        ..self.held
                    },
                    ..self
                }
            },
            _ => self,
        }
    }
}

/// What one place adds, without what lies inside it.
pub open spec fn found_at(found: Found, owner: Option<Text>, place: Place) -> Found {
    match place {
        Place::Call { func, args, .. } => found.call(owner, func, args@),
        Place::Use { tree, .. } => Found {
            renamed: renamings(tree, seq![], found.renamed),
            ..found
        },
        Place::Alias { name, ty } => match ty.form {
            Form::Path { idents, .. } => Found {
                renamed: table::put(found.renamed, name@, syntax::dotted(idents.deep_view())),
                ..found
            },
            _ => found,
        },
        Place::Const { name, value, .. } => found.constant(name@, value),
        Place::Global { name, value, .. } => found.constant(name@, value),
        Place::Fn(f) => found.function(f),
        _ => found,
    }
}

/// Whether what lies inside a place is read too.
pub open spec fn opens(place: Place) -> bool {
    !(place is Use) && !(place is Alias) && !(place is Const) && !(place is Global)
}

/// The function that what lies inside a place belongs to.
pub open spec fn owner_in(owner: Option<Text>, place: Place) -> Option<Text> {
    match place {
        Place::Fn(f) => Some(f.name@),
        _ => owner,
    }
}

pub open spec fn found_in(found: Found, owner: Option<Text>, part: Part) -> Found
    decreases part, 0nat,
{
    let here = found_at(found, owner, part.place);
    if opens(part.place) {
        found_all(here, owner_in(owner, part.place), part.parts@, part.parts@.len())
    } else {
        here
    }
}

/// What the first `n` parts add.
pub open spec fn found_all(found: Found, owner: Option<Text>, parts: Seq<Part>, n: nat) -> Found
    decreases parts, n,
{
    if n == 0 || n > parts.len() {
        found
    } else {
        found_in(found_all(found, owner, parts, (n - 1) as nat), owner, parts[n - 1])
    }
}

// --- what a workspace knows --------------------------------------------------

/// A constant that is a literal is known by its name as that literal, and a
/// function whose body is just a literal likewise; every function is known to be
/// there. Nothing else that was known changes.
pub proof fn lemma_known(found: Found, name: Text, value: Expression, f: syntax::Function, other: Text)
    ensures
        syntax::literal(value) matches Some(s) ==> table::lookup(
            found.constant(name, value).held.constants,
            name,
        ) == Some(s),
        syntax::literal(value) is None ==> found.constant(name, value) == found,
        other != name ==> table::lookup(found.constant(name, value).held.constants, other)
            == table::lookup(found.held.constants, other),
        table::lookup(found.function(f).held.defined, f.name@) is Some,
        syntax::sole_literal(f.body@) matches Some(s) ==> table::lookup(
            found.function(f).held.literal_fns,
            f.name@,
        ) == Some(s),
        syntax::sole_literal(f.body@) is None ==> found.function(f).held.literal_fns
            == found.held.literal_fns,
        other != f.name@ ==> table::lookup(found.function(f).held.literal_fns, other)
            == table::lookup(found.held.literal_fns, other) && table::lookup(
            found.function(f).held.defined,
            other,
        ) == table::lookup(found.held.defined, other),
        found.function(f).held.constants == found.held.constants,
        found.constant(name, value).held.literal_fns == found.held.literal_fns,
{
    if let Some(s) = syntax::literal(value) {
        table::lemma_put_lookup(found.held.constants, name, s, name);
        table::lemma_put_lookup(found.held.constants, name, s, other);
    }
    table::lemma_put_lookup(found.held.defined, f.name@, (), f.name@);
    table::lemma_put_lookup(found.held.defined, f.name@, (), other);
    if let Some(s) = syntax::sole_literal(f.body@) {
        table::lemma_put_lookup(found.held.literal_fns, f.name@, s, f.name@);
        table::lemma_put_lookup(found.held.literal_fns, f.name@, s, other);
    }
}

/// A function calls what it was seen to call, and reads the variable that it asks
/// `var` or `var_os` for by a literal; outside a function nothing is noted.
pub proof fn lemma_call_noted(
    found: Found,
    caller: Text,
    func: Expression,
    args: Seq<Expression>,
    callee: Text,
)
    requires
        syntax::name_of(func) == Some(callee),
    ensures
        ({
            let after = found.call(Some(caller), func, args).held;
            &&& list_at(after.calls, caller).contains(callee)
            &&& forall|x: Text|
                list_at(found.held.calls, caller).contains(x) ==> #[trigger] list_at(
                    after.calls,
                    caller,
                ).contains(x)
            &&& args.len() > 0 && args[0] is Str && (callee == "var"@ || callee == "var_os"@)
                ==> list_at(after.reads_env, caller).contains(args[0]->Str_0@)
            &&& callee != "var"@ && callee != "var_os"@ ==> after.reads_env == found.held.reads_env
            &&& args.len() == 0 || !(args[0] is Str) ==> after.reads_env == found.held.reads_env
        }),
        found.call(None, func, args) == found,
{
    let calls = list_at(found.held.calls, caller);
    let more = entered(calls, callee);
    table::lemma_put_lookup(found.held.calls, caller, more, caller);
    if !calls.contains(callee) {
        assert(more[calls.len() as int] == callee);
        assert forall|x: Text| calls.contains(x) implies more.contains(x) by {
            let i = choose|i: int| 0 <= i < calls.len() && calls[i] == x;
            assert(more[i] == x);
        }
    }
    if args.len() > 0 && args[0] is Str {
        let var = args[0]->Str_0@;
        let vars = list_at(found.held.reads_env, caller);
        let now = entered(vars, var);
        table::lemma_put_lookup(found.held.reads_env, caller, now, caller);
        if !vars.contains(var) {
            assert(now[vars.len() as int] == var);
        }
    }
}

/// Only `as` renames, and the new name stands for the whole path that it was put
/// on; a type alias for a path stands for that path.
pub proof fn lemma_renamed(
    name: String,
    rename: String,
    inner: Box<Import>,
    prefix: Seq<Text>,
    out: Seq<(Text, Text)>,
    other: Text,
)
    ensures
        table::lookup(renamings(Import::Rename { name, rename }, prefix, out), rename@) == Some(
            text::joined(prefix.push(name@), "::"@),
        ),
        other != rename@ ==> table::lookup(
            renamings(Import::Rename { name, rename }, prefix, out),
            other,
        ) == table::lookup(out, other),
        renamings(Import::Name(name), prefix, out) == out,
        renamings(Import::Glob, prefix, out) == out,
        renamings(Import::Path(name, inner), prefix, out) == renamings(
            *inner,
            prefix.push(name@),
            out,
        ),
{
    table::lemma_put_lookup(out, rename@, syntax::dotted(prefix.push(name@)), rename@);
    table::lemma_put_lookup(out, rename@, syntax::dotted(prefix.push(name@)), other);
}

/// What lies inside a function is its own: its calls are noted under its name.
pub proof fn lemma_inside_noted(
    found: Found,
    owner: Option<Text>,
    f: syntax::Function,
    handed: Vec<Part>,
    parts: Vec<Part>,
)
    ensures
        found_in(found, owner, Part { place: Place::Fn(f), handed, parts }) == found_all(
            found.function(f),
            Some(f.name@),
            parts@,
            parts@.len(),
        ),
{
}

struct Collector {
    held: Shared,
    renamed: Table<String>,
}

impl Collector {
    spec fn found(self) -> Found {
        Found { held: self.held.deep_view(), renamed: self.renamed.deep_view() }
    }

    fn constant(&mut self, name: &str, value: &Expression)
        ensures
            final(self).found() == old(self).found().constant(name@, *value),
    {
        if let Some(s) = syntax::string_literal(value) {
            let _ = self.held.constants.insert(name.to_owned(), s);
        }
    }

    fn enter_fn(&mut self, f: &syntax::Function)
        ensures
            final(self).found() == old(self).found().function(*f),
    {
        let _ = self.held.defined.insert(f.name.clone(), ());
        if let Some(s) = syntax::sole_string_literal(&f.body) {
            let _ = self.held.literal_fns.insert(f.name.clone(), s);
        }
    }

    fn call(&mut self, owner: Option<&String>, func: &Expression, args: &Vec<Expression>)
        ensures
            final(self).found() == old(self).found().call(owner.deep_view(), *func, args@),
    {
        if let (Some(caller), Some(callee)) = (owner, syntax::callee_name(func)) {
            if (text::same(callee.as_str(), "var") || text::same(callee.as_str(), "var_os"))
                && args.len() > 0 {
                if let Expression::Str(s) = &args[0] {
                    add_to(&mut self.held.reads_env, caller.as_str(), s.clone());
                }
            }
            add_to(&mut self.held.calls, caller.as_str(), callee);
        }
    }

    fn place(&mut self, owner: Option<&String>, place: &Place)
        ensures
            final(self).found() == found_at(old(self).found(), owner.deep_view(), *place),
    {
        match place {
            Place::Call { func, args, .. } => self.call(owner, func, args),
            Place::Use { tree, .. } => {
                let none: Vec<String> = Vec::new();
                assert(none.deep_view() =~= seq![]);
                walk_use(tree, &none, &mut self.renamed);
            },
            Place::Alias { name, ty } => {
                if let Form::Path { idents, .. } = &ty.form {
                    let _ = self.renamed.insert(name.clone(), text::join(idents, "::"));
                }
            },
            Place::Const { name, value, .. } => self.constant(name.as_str(), value),
            Place::Global { name, value, .. } => self.constant(name.as_str(), value),
            Place::Fn(f) => self.enter_fn(f),
            _ => {},
        }
    }

    fn part(&mut self, owner: Option<&String>, part: &Part)
        ensures
            final(self).found() == found_in(old(self).found(), owner.deep_view(), *part),
        decreases part,
    {
        self.place(owner, &part.place);
        let opened = match &part.place {
            Place::Use { .. } => false,
            Place::Alias { .. } => false,
            Place::Const { .. } => false,
            Place::Global { .. } => false,
            _ => true,
        };
        if !opened {
            return;
        }
        let inner: Option<&String> = match &part.place {
            Place::Fn(f) => Some(&f.name),
            _ => owner,
        };
        let ghost start = self.found();
        let mut i: usize = 0;
        while i < part.parts.len()
            invariant
                i <= part.parts.len(),
                self.found() == found_all(start, inner.deep_view(), part.parts@, i as nat),
            decreases part.parts.len() - i,
        {
            assert(decreases_to!(*part => part.parts));
            assert(decreases_to!(part.parts => part.parts@));
            assert(decreases_to!(part.parts@ => part.parts@[i as int]));
            self.part(inner, &part.parts[i]);
            i += 1;
        }
    }
}

/// A file of a package, read.
pub struct ParsedFile {
    pub rel_path: String,
    pub parsed: Tree,
    /// Under `tests/` or `benches/` rather than `src/`.
    pub test_role: bool,
    /// Module path of the file itself, e.g. `foo::bar` for `src/foo/bar.rs`.
    pub module_prefix: String,
}

pub struct ParsedV {
    pub rel_path: Text,
    pub parsed: Tree,
    pub test_role: bool,
    pub module_prefix: Text,
}

impl DeepView for ParsedFile {
    type V = ParsedV;

    open spec fn deep_view(&self) -> ParsedV {
        ParsedV {
            rel_path: self.rel_path@,
            parsed: self.parsed,
            test_role: self.test_role,
            module_prefix: self.module_prefix@,
        }
    }
}

impl FactsV {
    /// What is known after one more file.
    pub open spec fn file(self, file: ParsedV) -> FactsV {
        let found = found_all(
            Found { held: self.held, renamed: seq![] },
            None,
            file.parsed.parts@,
            file.parsed.parts@.len(),
        );
        FactsV {
            held: found.held,
            aliases: table::put(self.aliases, file.rel_path, found.renamed),
        }
    }

    pub open spec fn files(self, files: Seq<ParsedV>, n: nat) -> FactsV
        decreases n,
    {
        if n == 0 {
            self
        } else {
            self.files(files, (n - 1) as nat).file(files[n - 1])
        }
    }

    pub open spec fn packages(self, packages: Seq<Seq<ParsedV>>, n: nat) -> FactsV
        decreases n,
    {
        if n == 0 {
            self
        } else {
            self.packages(packages, (n - 1) as nat).files(packages[n - 1], packages[n - 1].len())
        }
    }

    pub open spec fn followed(self) -> FactsV {
        FactsV { held: self.held.followed(), ..self }
    }
}

impl Default for PackageFacts {
    fn default() -> (facts: PackageFacts)
        ensures
            facts.deep_view() == FactsV::empty(),
    {
        PackageFacts { aliases: Table::new(), held: Shared::default() }
    }
}

impl PackageFacts {
    /// Reads one more file.
    pub fn take(&mut self, file: &ParsedFile)
        ensures
            final(self).deep_view() == old(self).deep_view().file(file.deep_view()),
    {
        let mut held = Shared::default();
        std::mem::swap(&mut held, &mut self.held);
        let mut collector = Collector { held, renamed: Table::new() };
        let ghost start = collector.found();
        let mut i: usize = 0;
        while i < file.parsed.parts.len()
            invariant
                i <= file.parsed.parts.len(),
                self.aliases.deep_view() == old(self).aliases.deep_view(),
                collector.found() == found_all(start, None, file.parsed.parts@, i as nat),
            decreases file.parsed.parts.len() - i,
        {
            collector.part(None, &file.parsed.parts[i]);
            i += 1;
        }
        self.held = collector.held;
        let _ = self.aliases.insert(file.rel_path.clone(), collector.renamed);
    }

    /// What sets of files say, before anything is followed.
    pub fn gather(packages: &Vec<Vec<ParsedFile>>) -> (facts: PackageFacts)
        ensures
            facts.deep_view() == FactsV::empty().packages(packages.deep_view(), packages@.len()),
    {
        let mut facts = PackageFacts::default();
        let mut i: usize = 0;
        while i < packages.len()
            invariant
                i <= packages.len(),
                facts.deep_view() == FactsV::empty().packages(packages.deep_view(), i as nat),
            decreases packages.len() - i,
        {
            let files = &packages[i];
            assert(packages.deep_view()[i as int] == files.deep_view());
            let ghost start = facts.deep_view();
            let mut j: usize = 0;
            while j < files.len()
                invariant
                    j <= files.len(),
                    facts.deep_view() == start.files(files.deep_view(), j as nat),
                decreases files.len() - j,
            {
                assert(files.deep_view()[j as int] == files@[j as int].deep_view());
                facts.take(&files[j]);
                j += 1;
            }
            i += 1;
        }
        facts
    }

    /// What sets of files say, followed across all of them: where a value
    /// comes from routinely crosses a crate boundary.
    pub fn collect(packages: &Vec<Vec<ParsedFile>>) -> (facts: PackageFacts)
        ensures
            facts.deep_view() == FactsV::empty().packages(packages.deep_view(), packages@.len()).followed(),
    {
        let mut facts = PackageFacts::gather(packages);
        facts.resolve();
        facts
    }

    /// What this reader must tell the others.
    pub fn shared(&self) -> (shared: Shared)
        ensures
            shared.deep_view() == self.deep_view().held,
    {
        self.held.copy()
    }

    /// The same, for a caller with no further use for the facts.
    pub fn into_shared(self) -> (shared: Shared)
        ensures
            shared.deep_view() == self.deep_view().held,
    {
        self.held
    }

    /// Takes on what every reader found, keeping its own aliases.
    pub fn adopt(&mut self, shared: Shared)
        ensures
            final(self).deep_view() == (FactsV {
                held: shared.deep_view(),
                ..old(self).deep_view()
            }),
    {
        self.held = shared;
    }

    /// Follows what was gathered to its conclusion.
    pub fn resolve(&mut self)
        ensures
            final(self).deep_view() == old(self).deep_view().followed(),
    {
        self.held.resolve();
    }

    /// The names a file gave to something else.
    pub fn aliases_for(&self, rel_path: &str) -> (names: Table<String>)
        ensures
            names.deep_view() == self.deep_view().aliases_for(rel_path@),
    {
        match self.aliases.get(rel_path) {
            Some(names) => copy_texts(names),
            None => Table::new(),
        }
    }
}

}
