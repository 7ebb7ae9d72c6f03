use vstd::prelude::*;
use vstd::string::*;
use crate::duration::{Duration, parse_duration, parse_duration_spec, parse_duration_panics};
use crate::text::{nat_decimal, u64_to_decimal};
use crate::cleverbot::Cleverbot;

verus! {

// ---------------------------------------------------------------------------
// Purging messages

/// A message of a channel as the purge reads it: its id, its author, and
/// its age in whole days.
#[derive(Clone, Copy, Debug)]
pub struct MessageInfo {
    pub id: u64,
    pub author: u64,
    pub age_days: i64,
}

/// What a purge does with the messages it picked.
#[derive(Debug)]
pub enum PurgeAction {
    /// Nothing was picked.
    Nothing,
    /// One message is deleted on its own.
    DeleteOne(u64),
    /// Several messages are deleted together.
    DeleteMany(Vec<u64>),
}

/// A message may be purged: by the given user when there is one, and at
/// most 11 days old.
pub open spec fn purgeable(m: MessageInfo, user: Option<u64>) -> bool {
    &&& (user matches Some(u) ==> m.author == u)
    &&& m.age_days <= 11
}

/// How many messages a purge command asks for: its argument when that is
/// between 1 and 100, else 0.
pub open spec fn purge_count_spec(amount: u64) -> u64 {
    if 1 <= amount <= 100 { amount } else { 0 }
}

/// The number of messages a purge command removes besides itself.
pub fn purge_count(amount: u64) -> (r: u64)
    ensures
        r == purge_count_spec(amount),
        r <= 100,
{
    if 1 <= amount && amount <= 100 {
        amount
    } else {
        0
    }
}

/// The ids of the purgeable messages, in order.
pub open spec fn purgeable_ids(ms: Seq<MessageInfo>, user: Option<u64>) -> Seq<u64>
    decreases ms.len(),
{
    if ms.len() == 0 {
        Seq::empty()
    } else if purgeable(ms.last(), user) {
        purgeable_ids(ms.drop_last(), user).push(ms.last().id)
    } else {
        purgeable_ids(ms.drop_last(), user)
    }
}

/// The first `amount + 1` purgeable ids (the command message counts too).
pub open spec fn purge_selection(ms: Seq<MessageInfo>, amount: u64, user: Option<u64>) -> Seq<u64> {
    let ids = purgeable_ids(ms, user);
    let n = ((amount + 1) as usize) as int;
    if n < ids.len() { ids.take(n) } else { ids }
}

proof fn lemma_purgeable_ids_len(ms: Seq<MessageInfo>, user: Option<u64>)
    ensures
        purgeable_ids(ms, user).len() <= ms.len(),
    decreases ms.len(),
{
    if ms.len() > 0 {
        lemma_purgeable_ids_len(ms.drop_last(), user);
    }
}

/// `id` is that of a message of `ms` that may be purged.
pub open spec fn purgeable_id(ms: Seq<MessageInfo>, user: Option<u64>, id: u64) -> bool {
    exists|k: int| 0 <= k < ms.len() && ms[k].id == id && purgeable(ms[k], user)
}

proof fn lemma_purgeable_ids_sources(ms: Seq<MessageInfo>, user: Option<u64>)
    ensures
        forall|i: int| 0 <= i < purgeable_ids(ms, user).len() ==> purgeable_id(ms, user, #[trigger] purgeable_ids(ms, user)[i]),
    decreases ms.len(),
{
    if ms.len() > 0 {
        let pre = ms.drop_last();
        lemma_purgeable_ids_sources(pre, user);
        assert forall|i: int| 0 <= i < purgeable_ids(ms, user).len() implies purgeable_id(ms, user, #[trigger] purgeable_ids(ms, user)[i]) by {
            if i < purgeable_ids(pre, user).len() {
                assert(purgeable_ids(ms, user)[i] == purgeable_ids(pre, user)[i]);
                assert(purgeable_id(pre, user, purgeable_ids(pre, user)[i]));
                let k = choose|k: int| 0 <= k < pre.len() && pre[k].id == purgeable_ids(pre, user)[i] && purgeable(pre[k], user);
                assert(ms[k] == pre[k]);
            } else {
                assert(ms[ms.len() - 1] == ms.last());
            }
        }
    }
}

/// A purge deletes only what it may: every picked id is that of a message
/// by the given user (when one is given) that is at most 11 days old, and
/// no more than `amount + 1` are picked.
pub proof fn lemma_purge_picks_only_purgeable(ms: Seq<MessageInfo>, amount: u64, user: Option<u64>)
    ensures
        purge_selection(ms, amount, user).len() <= ((amount + 1) as usize),
        forall|i: int| 0 <= i < purge_selection(ms, amount, user).len()
            ==> purgeable_id(ms, user, #[trigger] purge_selection(ms, amount, user)[i]),
{
    lemma_purgeable_ids_sources(ms, user);
    let ids = purgeable_ids(ms, user);
    assert forall|i: int| 0 <= i < purge_selection(ms, amount, user).len()
        implies purgeable_id(ms, user, #[trigger] purge_selection(ms, amount, user)[i]) by {
        assert(purge_selection(ms, amount, user)[i] == ids[i]);
    }
}

/// The purgeable ids are the ids of the messages that `purgeable` keeps,
/// in their order.
pub proof fn lemma_purgeable_ids_are_filtered(ms: Seq<MessageInfo>, user: Option<u64>)
    ensures
        purgeable_ids(ms, user) == ms.filter(|m: MessageInfo| purgeable(m, user)).map_values(|m: MessageInfo| m.id),
    decreases ms.len(),
{
    reveal_with_fuel(Seq::filter, 1);
    if ms.len() > 0 {
        lemma_purgeable_ids_are_filtered(ms.drop_last(), user);
        let f = ms.drop_last().filter(|m: MessageInfo| purgeable(m, user));
        if purgeable(ms.last(), user) {
            assert(f.push(ms.last()).map_values(|m: MessageInfo| m.id)
                =~= f.map_values(|m: MessageInfo| m.id).push(ms.last().id));
        }
    }
}

/// A purge takes as many messages as it may, up to `amount + 1`: its
/// selection is the ids of the first `min(amount + 1, k)` messages that may
/// be purged, where `k` is how many may be, in their order.
pub proof fn lemma_purge_takes_first_purgeable(ms: Seq<MessageInfo>, amount: u64, user: Option<u64>)
    ensures
        ({
            let ids = ms.filter(|m: MessageInfo| purgeable(m, user)).map_values(|m: MessageInfo| m.id);
            let limit = ((amount + 1) as usize) as int;
            let n = if limit < ids.len() { limit } else { ids.len() as int };
            &&& purge_selection(ms, amount, user).len() == n
            &&& purge_selection(ms, amount, user) == ids.take(n)
        }),
{
    lemma_purgeable_ids_are_filtered(ms, user);
    let ids = purgeable_ids(ms, user);
    let limit = ((amount + 1) as usize) as int;
    if limit >= ids.len() {
        assert(ids.take(ids.len() as int) =~= ids);
    }
}

/// Picks the messages a purge deletes from the latest messages of a
/// channel: the first `amount + 1` that `purgeable` keeps.
pub fn purge_messages(messages: &Vec<MessageInfo>, amount: u64, user: Option<u64>) -> (r: PurgeAction)
    requires
        amount < u64::MAX,
    ensures
        ({
            let sel = purge_selection(messages@, amount, user);
            match r {
                PurgeAction::Nothing => sel.len() == 0,
                PurgeAction::DeleteOne(id) => sel.len() == 1 && sel[0] == id,
                PurgeAction::DeleteMany(ids) => sel.len() > 1 && ids@ == sel,
            }
        }),
{
    let limit = (amount + 1) as usize;
    let mut picked: Vec<u64> = Vec::new();
    let mut i: usize = 0;
    while i < messages.len()
        invariant
            i <= messages@.len(),
            limit == ((amount + 1) as usize),
            picked@ == ({
                let ids = purgeable_ids(messages@.subrange(0, i as int), user);
                if (limit as int) < ids.len() { ids.take(limit as int) } else { ids }
            }),
        decreases messages@.len() - i,
    {
        let m = messages[i];
        let ghost pre = messages@.subrange(0, i as int);
        assert(messages@.subrange(0, i + 1).drop_last() =~= pre);
        assert(messages@.subrange(0, i + 1).last() == m);
        let keep = match user {
            Some(u) => m.author == u,
            None => true,
        } && m.age_days <= 11;
        assert(keep == purgeable(m, user));
        let ghost ids0 = purgeable_ids(pre, user);
        if keep && picked.len() < limit {
            picked.push(m.id);
        }
        proof {
            if keep && ids0.len() >= limit {
                assert(ids0.push(m.id).take(limit as int) =~= ids0.take(limit as int));
                if ids0.len() == limit {
                    assert(ids0.take(limit as int) =~= ids0);
                }
            }
        }
        i = i + 1;
    }
    assert(messages@.subrange(0, messages@.len() as int) =~= messages@);
    if picked.len() > 1 {
        PurgeAction::DeleteMany(picked)
    } else if picked.len() == 1 {
        PurgeAction::DeleteOne(picked[0])
    } else {
        PurgeAction::Nothing
    }
}

// ---------------------------------------------------------------------------
// Reminders

/// A reminder asked for: after how long, and with which message.
#[derive(Debug)]
pub struct Reminder {
    pub duration: Duration,
    pub message: String,
}

/// The strings joined with single spaces between them.
pub open spec fn join_spaced(parts: Seq<Seq<char>>) -> Seq<char>
    decreases parts.len(),
{
    if parts.len() == 0 {
        Seq::empty()
    } else if parts.len() == 1 {
        parts[0]
    } else {
        join_spaced(parts.drop_last()) + " "@ + parts.last()
    }
}

/// The views of a sequence of strings.
pub open spec fn views_of(v: Seq<String>) -> Seq<Seq<char>> {
    v.map_values(|s: String| s@)
}

/// Joins `parts` with single spaces, as `[String]::join(" ")` does.
pub fn join_with_spaces(parts: &[String]) -> (r: String)
    ensures
        r@ == join_spaced(views_of(parts@)),
{
    let mut r = String::new();
    let mut i: usize = 0;
    while i < parts.len()
        invariant
            i <= parts@.len(),
            r@ == join_spaced(views_of(parts@.subrange(0, i as int))),
        decreases parts@.len() - i,
    {
        let ghost before = views_of(parts@.subrange(0, i as int));
        assert(views_of(parts@.subrange(0, i + 1)).drop_last() =~= before);
        if i > 0 {
            r.append(" ");
        } else {
            assert(r@.len() == 0);
            assert(r@ + parts@[0]@ =~= parts@[0]@);
        }
        r.append(parts[i].as_str());
        i = i + 1;
    }
    assert(parts@.subrange(0, parts@.len() as int) =~= parts@);
    r
}

/// Reads a `remind` command: the first argument is the span, the rest,
/// joined by spaces, the message.
pub fn add_reminder(args: &Vec<String>) -> (r: Result<Reminder, String>)
    requires
        args@.len() >= 2 ==> !parse_duration_panics(args@[0]@),
    ensures
        args@.len() < 2 ==> (match r {
            Err(e) => e@ == "To few arguments"@,
            Ok(_) => false,
        }),
        args@.len() >= 2 ==> (match r {
            Err(e) => parse_duration_spec(args@[0]@) == Err::<int, Seq<char>>(e@),
            Ok(rem) => parse_duration_spec(args@[0]@) == Ok::<int, Seq<char>>(rem.duration.seconds as int)
                && rem.message@ == join_spaced(views_of(args@.subrange(1, args@.len() as int))),
        }),
{
    if args.len() < 2 {
        return Err(String::from_str("To few arguments"));
    }
    let duration = match parse_duration(args[0].as_str()) {
        Ok(d) => d,
        Err(e) => {
            return Err(e);
        },
    };
    let rest = args.as_slice().split_at(1).1;
    assert(rest@ =~= args@.subrange(1, args@.len() as int));
    let message = join_with_spaces(rest);
    Ok(Reminder { duration, message })
}

// ---------------------------------------------------------------------------
// Counting commands

/// How often each command was used, in the order the commands first came.
pub struct CommandCounts {
    entries: Vec<(String, u64)>,
}

/// No command name occurs twice.
pub open spec fn names_distinct(v: Seq<(Seq<char>, u64)>) -> bool {
    forall|i: int, j: int| 0 <= i < v.len() && 0 <= j < v.len() && i != j ==> v[i].0 != v[j].0
}

impl View for CommandCounts {
    type V = Seq<(Seq<char>, u64)>;

    closed spec fn view(&self) -> Seq<(Seq<char>, u64)> {
        self.entries@.map_values(|e: (String, u64)| (e.0@, e.1))
    }
}

/// The index of `name` among the counted commands, if it was counted.
pub open spec fn index_of_name(v: Seq<(Seq<char>, u64)>, name: Seq<char>) -> Option<int> {
    if exists|k: int| 0 <= k < v.len() && v[k].0 == name {
        Some(choose|k: int| 0 <= k < v.len() && v[k].0 == name)
    } else {
        None
    }
}

/// The counts after one more use of `name`: its count goes up by one, or
/// it joins at the end with a count of one.
pub open spec fn counted_once_more(v: Seq<(Seq<char>, u64)>, name: Seq<char>) -> Seq<(Seq<char>, u64)> {
    match index_of_name(v, name) {
        Some(k) => v.update(k, (name, (v[k].1 + 1) as u64)),
        None => v.push((name, 1u64)),
    }
}

/// One line of the usage report.
pub open spec fn count_line(e: (Seq<char>, u64)) -> Seq<char> {
    "- "@ + e.0 + ": "@ + nat_decimal(e.1 as nat) + "\n"@
}

/// The lines of the usage report, in order.
pub open spec fn count_lines(v: Seq<(Seq<char>, u64)>) -> Seq<char>
    decreases v.len(),
{
    if v.len() == 0 {
        Seq::empty()
    } else {
        count_lines(v.drop_last()) + count_line(v.last())
    }
}

/// The counts after recording each of `names` in turn, from none.
pub open spec fn counts_after(names: Seq<Seq<char>>) -> Seq<(Seq<char>, u64)>
    decreases names.len(),
{
    if names.len() == 0 {
        Seq::empty()
    } else {
        counted_once_more(counts_after(names.drop_last()), names.last())
    }
}

/// How often `x` occurs in `names`.
pub open spec fn occurrences(names: Seq<Seq<char>>, x: Seq<char>) -> int
    decreases names.len(),
{
    if names.len() == 0 {
        0
    } else {
        occurrences(names.drop_last(), x) + if names.last() == x { 1int } else { 0 }
    }
}

proof fn lemma_occurrences_prefix(names: Seq<Seq<char>>, x: Seq<char>)
    requires
        names.len() > 0,
    ensures
        occurrences(names.drop_last(), x) <= occurrences(names, x),
        0 <= occurrences(names.drop_last(), x),
    decreases names.len(),
{
    if names.len() > 1 {
        lemma_occurrences_prefix(names.drop_last(), x);
    }
}

/// The counter counts: after recording a sequence of command names, each
/// name that occurred is listed once, with the number of times it
/// occurred, and no other name is listed.
pub proof fn lemma_counts_are_occurrences(names: Seq<Seq<char>>)
    requires
        forall|x: Seq<char>| occurrences(names, x) <= u64::MAX,
    ensures
        names_distinct(counts_after(names)),
        forall|i: int| 0 <= i < counts_after(names).len() ==> {
            let e = #[trigger] counts_after(names)[i];
            e.1 == occurrences(names, e.0) && occurrences(names, e.0) > 0
        },
        forall|x: Seq<char>| occurrences(names, x) > 0 ==> exists|i: int|
            0 <= i < counts_after(names).len() && #[trigger] counts_after(names)[i].0 == x,
    decreases names.len(),
{
    if names.len() > 0 {
        let pre = names.drop_last();
        let y = names.last();
        assert forall|x: Seq<char>| occurrences(pre, x) <= u64::MAX by {
            lemma_occurrences_prefix(names, x);
        }
        lemma_counts_are_occurrences(pre);
        let v = counts_after(pre);
        if exists|k: int| 0 <= k < v.len() && v[k].0 == y {
            let k = choose|k: int| 0 <= k < v.len() && v[k].0 == y;
            assert(index_of_name(v, y) == Some(k));
            {
                assert(v[k].0 == y);
                assert forall|i: int| 0 <= i < v.len() && i != k implies v[i].0 != y by {}
                let w = v.update(k, (y, (v[k].1 + 1) as u64));
                assert(counts_after(names) == w);
                assert forall|x: Seq<char>| occurrences(names, x) > 0 implies exists|i: int|
                    0 <= i < w.len() && #[trigger] w[i].0 == x by {
                    if x == y {
                        assert(w[k].0 == x);
                    } else {
                        assert(occurrences(pre, x) > 0);
                        let i = choose|i: int| 0 <= i < v.len() && #[trigger] v[i].0 == x;
                        assert(w[i].0 == x);
                    }
                }
            }
        } else {
            {
                assert(index_of_name(v, y) is None);
                lemma_occurrences_prefix(names, y);
                if occurrences(pre, y) > 0 {
                    let i = choose|i: int| 0 <= i < v.len() && #[trigger] v[i].0 == y;
                    assert(exists|k: int| 0 <= k < v.len() && v[k].0 == y);
                }
                assert(occurrences(pre, y) == 0);
                let w = v.push((y, 1u64));
                assert(counts_after(names) == w);
                assert forall|x: Seq<char>| occurrences(names, x) > 0 implies exists|i: int|
                    0 <= i < w.len() && #[trigger] w[i].0 == x by {
                    if x == y {
                        assert(w[v.len() as int].0 == x);
                    } else {
                        assert(occurrences(pre, x) > 0);
                        let i = choose|i: int| 0 <= i < v.len() && #[trigger] v[i].0 == x;
                        assert(w[i].0 == x);
                    }
                }
            }
        }
    }
}

/// The count of `name` in `v`: that of its entry, or 0 when it has none.
pub open spec fn count_in(v: Seq<(Seq<char>, u64)>, name: Seq<char>) -> int {
    match index_of_name(v, name) {
        Some(k) => v[k].1 as int,
        None => 0,
    }
}

/// The counts after recording each of `names` in turn, starting from `start`.
pub open spec fn counts_after_from(start: Seq<(Seq<char>, u64)>, names: Seq<Seq<char>>) -> Seq<(Seq<char>, u64)>
    decreases names.len(),
{
    if names.len() == 0 {
        start
    } else {
        counted_once_more(counts_after_from(start, names.drop_last()), names.last())
    }
}

proof fn lemma_counted_once_more(v: Seq<(Seq<char>, u64)>, y: Seq<char>)
    requires
        names_distinct(v),
        count_in(v, y) < u64::MAX,
    ensures
        names_distinct(counted_once_more(v, y)),
        forall|x: Seq<char>| #[trigger] count_in(counted_once_more(v, y), x)
            == count_in(v, x) + if x == y { 1int } else { 0int },
{
    let w = counted_once_more(v, y);
    if exists|k: int| 0 <= k < v.len() && v[k].0 == y {
        let k = choose|k: int| 0 <= k < v.len() && v[k].0 == y;
        assert(index_of_name(v, y) == Some(k));
        assert(w == v.update(k, (y, (v[k].1 + 1) as u64)));
        assert forall|i: int| 0 <= i < w.len() implies #[trigger] w[i].0 == v[i].0 by {}
        assert forall|x: Seq<char>| #[trigger] count_in(w, x) == count_in(v, x) + if x == y { 1int } else { 0int } by {
            if exists|j: int| 0 <= j < v.len() && v[j].0 == x {
                let kv = choose|j: int| 0 <= j < v.len() && v[j].0 == x;
                assert(w[kv].0 == x);
                let kw = choose|j: int| 0 <= j < w.len() && w[j].0 == x;
                assert(v[kw].0 == x);
                assert(kw == kv);
                assert(index_of_name(w, x) == Some(kw));
                if x == y {
                    assert(kv == k);
                } else {
                    assert(kw != k);
                }
            } else {
                assert forall|j: int| 0 <= j < w.len() implies w[j].0 != x by {
                    assert(v[j].0 != x);
                }
                if x == y {
                    assert(v[k].0 == x);
                }
            }
        }
    } else {
        assert(index_of_name(v, y) is None);
        assert(w == v.push((y, 1u64)));
        assert forall|x: Seq<char>| #[trigger] count_in(w, x) == count_in(v, x) + if x == y { 1int } else { 0int } by {
            if x == y {
                assert(w[v.len() as int].0 == x);
                let kw = choose|j: int| 0 <= j < w.len() && w[j].0 == x;
                if kw < v.len() {
                    assert(v[kw].0 == y);
                }
                assert(kw == v.len());
            } else if exists|j: int| 0 <= j < v.len() && v[j].0 == x {
                let kv = choose|j: int| 0 <= j < v.len() && v[j].0 == x;
                assert(w[kv].0 == x);
                let kw = choose|j: int| 0 <= j < w.len() && w[j].0 == x;
                assert(kw < v.len());
                assert(v[kw].0 == x);
                assert(kw == kv);
            } else {
                assert forall|j: int| 0 <= j < w.len() implies w[j].0 != x by {
                    if j < v.len() {
                        assert(v[j].0 != x);
                    }
                }
            }
        }
    }
}

/// The counter counts from wherever it stands: after recording a
/// sequence of command names, each name's count is its count before plus
/// the number of times it occurred, for every name (0 standing for no
/// entry), and no name is listed twice.
pub proof fn lemma_counts_from_any_start(start: Seq<(Seq<char>, u64)>, names: Seq<Seq<char>>)
    requires
        names_distinct(start),
        forall|x: Seq<char>| #[trigger] count_in(start, x) + occurrences(names, x) <= u64::MAX,
    ensures
        names_distinct(counts_after_from(start, names)),
        forall|x: Seq<char>| #[trigger] count_in(counts_after_from(start, names), x)
            == count_in(start, x) + occurrences(names, x),
    decreases names.len(),
{
    if names.len() > 0 {
        let pre = names.drop_last();
        let y = names.last();
        assert forall|x: Seq<char>| #[trigger] count_in(start, x) + occurrences(pre, x) <= u64::MAX by {
            lemma_occurrences_prefix(names, x);
        }
        lemma_counts_from_any_start(start, pre);
        let v = counts_after_from(start, pre);
        assert(count_in(v, y) == count_in(start, y) + occurrences(pre, y));
        assert(occurrences(names, y) == occurrences(pre, y) + 1);
        assert(count_in(start, y) + occurrences(names, y) <= u64::MAX);
        lemma_counted_once_more(v, y);
        assert forall|x: Seq<char>| #[trigger] count_in(counts_after_from(start, names), x)
            == count_in(start, x) + occurrences(names, x) by {
            assert(count_in(v, x) == count_in(start, x) + occurrences(pre, x));
        }
    }
}

impl CommandCounts {
    #[verifier::type_invariant]
    spec fn distinct(self) -> bool {
        names_distinct(self@)
    }

    /// No command counted yet.
    pub fn new() -> (r: CommandCounts)
        ensures
            r@ == Seq::<(Seq<char>, u64)>::empty(),
    {
        let r = CommandCounts { entries: Vec::new() };
        assert(r@ =~= Seq::<(Seq<char>, u64)>::empty());
        r
    }

    /// Counts one more use of `name`. The count must not be at its maximum.
    pub fn record(&mut self, name: String)
        requires
            forall|k: int| 0 <= k < old(self)@.len() && old(self)@[k].0 == name@ ==> old(self)@[k].1 < u64::MAX,
        ensures
            final(self)@ == counted_once_more(old(self)@, name@),
    {
        proof { use_type_invariant(&*self); }
        let ghost v = old(self)@;
        assert(v == self@);
        let n = self.entries.len();
        let mut i: usize = 0;
        while i < n
            invariant
                n == self.entries@.len(),
                v == self@,
                v == self.entries@.map_values(|e: (String, u64)| (e.0@, e.1)),
                i <= n,
                names_distinct(v),
                forall|k: int| 0 <= k < i ==> v[k].0 != name@,
            ensures
                i <= n,
                i < n ==> v[i as int].0 == name@,
                forall|k: int| 0 <= k < i ==> v[k].0 != name@,
            decreases n - i,
        {
            assert(v[i as int] == (self.entries@[i as int].0@, self.entries@[i as int].1));
            if self.entries[i].0 == name {
                break;
            }
            i = i + 1;
        }
        let mut entries: Vec<(String, u64)> = Vec::new();
        std::mem::swap(&mut entries, &mut self.entries);
        if i < n {
            let c = entries[i].1;
            assert(v[i as int] == (entries@[i as int].0@, entries@[i as int].1));
            assert(index_of_name(v, name@) == Some(i as int));
            entries.set(i, (name, c + 1));
            assert(entries@.map_values(|e: (String, u64)| (e.0@, e.1)) =~= v.update(i as int, (name@, (c + 1) as u64)));
            assert(names_distinct(v.update(i as int, (name@, (c + 1) as u64))));
        } else {
            assert(index_of_name(v, name@) is None);
            entries.push((name, 1));
            assert(entries@.map_values(|e: (String, u64)| (e.0@, e.1)) =~= v.push((name@, 1u64)));
            assert(names_distinct(v.push((name@, 1u64))));
        }
        self.entries = entries;
    }

    /// How often `name` was counted; 0 when it never was.
    pub fn count_of(&self, name: &str) -> (r: u64)
        ensures
            r == count_in(self@, name@),
    {
        proof { use_type_invariant(self); }
        let target = String::from_str(name);
        let n = self.entries.len();
        let mut i: usize = 0;
        while i < n
            invariant
                target@ == name@,
                n == self.entries@.len() == self@.len(),
                self@ == self.entries@.map_values(|e: (String, u64)| (e.0@, e.1)),
                names_distinct(self@),
                i <= n,
                forall|k: int| 0 <= k < i ==> self@[k].0 != name@,
            decreases n - i,
        {
            assert(self@[i as int] == (self.entries@[i as int].0@, self.entries@[i as int].1));
            if self.entries[i].0 == target {
                assert(index_of_name(self@, name@) == Some(i as int));
                return self.entries[i].1;
            }
            i = i + 1;
        }
        assert(index_of_name(self@, name@) is None);
        0
    }

    /// The usage report: a heading, then `- name: count` for each command.
    pub fn report(&self) -> (r: String)
        ensures
            r@ == "Commands used:\n"@ + count_lines(self@),
    {
        let mut r = String::from_str("Commands used:\n");
        let n = self.entries.len();
        let mut i: usize = 0;
        while i < n
            invariant
                n == self.entries@.len() == self@.len(),
                self@ == self.entries@.map_values(|e: (String, u64)| (e.0@, e.1)),
                i <= n,
                r@ == "Commands used:\n"@ + count_lines(self@.subrange(0, i as int)),
            decreases n - i,
        {
            let ghost before = r@;
            r.append("- ");
            r.append(self.entries[i].0.as_str());
            r.append(": ");
            r.append(u64_to_decimal(self.entries[i].1).as_str());
            r.append("\n");
            assert(self@.subrange(0, i + 1).drop_last() =~= self@.subrange(0, i as int));
            assert(self@.subrange(0, i + 1).last() == self@[i as int]);
            assert(r@ =~= before + count_line(self@[i as int]));
            i = i + 1;
        }
        assert(self@.subrange(0, n as int) =~= self@);
        r
    }
}

// ---------------------------------------------------------------------------
// Chat sessions

/// The reply of the `think` command: the question, echoed in braces.
pub fn think_reply(args: &Vec<String>) -> (r: String)
    ensures
        r@ == "You asked the (broken) kleverbot {"@ + join_spaced(views_of(args@)) + "}"@,
{
    let mut r = String::from_str("You asked the (broken) kleverbot {");
    r.append(join_with_spaces(args.as_slice()).as_str());
    r.append("}");
    r
}

/// The session the `cbrestart` command starts: a client with a placeholder key.
pub fn new_cb_session() -> (r: Result<Cleverbot, String>)
    ensures
        r matches Ok(cb) && cb.api_key@ == "This Token"@ && cb.sesscs@.len() == 0 && cb.cbsession.cs@.len() == 0,
{
    Ok(Cleverbot::new(String::from_str("This Token")))
}

} // verus!
