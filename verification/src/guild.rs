use vstd::prelude::*;
use vstd::string::*;
use std::collections::HashMap;
use crate::duration::{parse_u64, parse_u64_spec, int_error_text, Duration, duration_text, duration_to_ascii};
use crate::order::{le_spec, total_order};
use crate::sorting::{quick_sort, sorted_le, lemma_multiset_member};
use crate::text::{nat_decimal, int_decimal, pad_left, pad_right, u64_to_decimal, i64_to_decimal, push_padded_left, push_padded_right};

verus! {

broadcast use vstd::std_specs::hash::group_hash_axioms;

/// The one user allowed to run the owner-only commands.
pub const OWNER_ID: u64 = 102379663615094784;

/// Whether the author of a command is the bot's owner.
pub fn owner_check(author_id: u64) -> (r: bool)
    ensures
        r == (author_id == OWNER_ID),
{
    author_id == OWNER_ID
}

/// Which guild a `guild_info` command asks about: the first argument when
/// there is one, else the guild the message came from.
pub open spec fn guild_id_spec(args: Seq<Seq<char>>, message_guild: Option<u64>) -> Result<int, Seq<char>> {
    if args.len() >= 1 {
        match parse_u64_spec(args[0]) {
            Ok(v) => Ok(v),
            Err(k) => Err("Unable to parse GuildId: "@ + int_error_text(k)),
        }
    } else {
        match message_guild {
            Some(g) => Ok(g as int),
            None => Err("Not an Guild"@),
        }
    }
}

/// The views of a vector of strings.
pub open spec fn string_views(v: Seq<String>) -> Seq<Seq<char>> {
    v.map_values(|s: String| s@)
}

/// Picks the guild a `guild_info` command is about, or the error to report.
pub fn guild_id_from(args: &Vec<String>, message_guild: Option<u64>) -> (r: Result<u64, String>)
    ensures
        match r {
            Ok(g) => guild_id_spec(string_views(args@), message_guild) == Ok::<int, Seq<char>>(g as int),
            Err(e) => guild_id_spec(string_views(args@), message_guild) == Err::<int, Seq<char>>(e@),
        },
{
    if args.len() >= 1 {
        assert(string_views(args@)[0] == args@[0]@);
        match parse_u64(args[0].as_str()) {
            Ok(n) => Ok(n),
            Err(k) => {
                let mut e = String::from_str("Unable to parse GuildId: ");
                e.append(k.debug_text().as_str());
                Err(e)
            },
        }
    } else {
        match message_guild {
            Some(g) => Ok(g),
            None => Err(String::from_str("Not an Guild")),
        }
    }
}

/// How strictly a guild checks new members.
#[derive(Clone, Copy, Debug, PartialEq, Eq, Structural)]
pub enum VerificationLevel {
    Unrestricted,
    Low,
    Medium,
    High,
    Higher,
}

/// What each verification level asks of a member.
pub open spec fn verification_text_spec(level: VerificationLevel) -> Seq<char> {
    match level {
        VerificationLevel::Unrestricted => "Does not require any verification."@,
        VerificationLevel::Low => "Must have a verified email on the user's Discord account."@,
        VerificationLevel::Medium => "Must also be a registered user on Discord for longer than 5 minutes."@,
        VerificationLevel::High => "Must also be a member of the guild for longer than 10 minutes."@,
        VerificationLevel::Higher => "Must have a verified phone on the user's Discord account."@,
    }
}

/// The description of a guild's verification level.
pub fn verification_text(level: VerificationLevel) -> (r: &'static str)
    ensures
        r@ == verification_text_spec(level),
{
    match level {
        VerificationLevel::Unrestricted => "Does not require any verification.",
        VerificationLevel::Low => "Must have a verified email on the user's Discord account.",
        VerificationLevel::Medium => "Must also be a registered user on Discord for longer than 5 minutes.",
        VerificationLevel::High => "Must also be a member of the guild for longer than 10 minutes.",
        VerificationLevel::Higher => "Must have a verified phone on the user's Discord account.",
    }
}

/// A member's presence.
#[derive(Clone, Copy, Debug, PartialEq, Eq, Structural)]
pub enum OnlineStatus {
    Online,
    Idle,
    DoNotDisturb,
    Invisible,
    Offline,
}

/// How many of `s` have status `st`.
pub open spec fn count_status(s: Seq<OnlineStatus>, st: OnlineStatus) -> int
    decreases s.len(),
{
    if s.len() == 0 {
        0
    } else {
        count_status(s.drop_last(), st) + if s.last() == st { 1int } else { 0 }
    }
}

proof fn lemma_count_status_bound(s: Seq<OnlineStatus>, st: OnlineStatus)
    ensures
        0 <= count_status(s, st) <= s.len(),
    decreases s.len(),
{
    if s.len() > 0 {
        lemma_count_status_bound(s.drop_last(), st);
    }
}

proof fn lemma_count_status_prefix(s: Seq<OnlineStatus>, i: int, st: OnlineStatus)
    requires
        0 <= i <= s.len(),
    ensures
        count_status(s.subrange(0, i), st) <= count_status(s, st),
    decreases s.len() - i,
{
    if i < s.len() {
        lemma_count_status_prefix(s, i + 1, st);
        assert(s.subrange(0, i + 1).drop_last() =~= s.subrange(0, i));
    } else {
        assert(s.subrange(0, i) =~= s);
    }
}

/// The members online, idle and not to be disturbed, summed.
pub open spec fn present_total(s: Seq<OnlineStatus>) -> int {
    count_status(s, OnlineStatus::Online) + count_status(s, OnlineStatus::Idle)
        + count_status(s, OnlineStatus::DoNotDisturb)
}

/// Whether the presence counts of `statuses`, and their sum, fit in `i32`.
pub fn presences_fit(statuses: &Vec<OnlineStatus>) -> (b: bool)
    ensures
        b == (present_total(statuses@) <= i32::MAX),
{
    let mut total: u64 = 0;
    let mut i: usize = 0;
    while i < statuses.len()
        invariant
            i <= statuses@.len(),
            total == present_total(statuses@.subrange(0, i as int)),
            total <= i,
        decreases statuses@.len() - i,
    {
        assert(statuses@.subrange(0, i + 1).drop_last() =~= statuses@.subrange(0, i as int));
        let st = statuses[i];
        if st == OnlineStatus::Online || st == OnlineStatus::Idle || st == OnlineStatus::DoNotDisturb {
            total += 1;
        }
        i += 1;
    }
    assert(statuses@.subrange(0, i as int) =~= statuses@);
    total <= 2147483647
}

/// Members online, idle and not to be disturbed, and those three summed.
pub fn count_presences(statuses: &Vec<OnlineStatus>) -> (r: ([i32; 3], i32))
    requires
        present_total(statuses@) <= i32::MAX,
    ensures
        r.0[0] == count_status(statuses@, OnlineStatus::Online),
        r.0[1] == count_status(statuses@, OnlineStatus::Idle),
        r.0[2] == count_status(statuses@, OnlineStatus::DoNotDisturb),
        r.1 == r.0[0] + r.0[1] + r.0[2],
{
    let mut online: i32 = 0;
    let mut idle: i32 = 0;
    let mut dnd: i32 = 0;
    let mut i: usize = 0;
    proof {
        lemma_count_status_bound(statuses@, OnlineStatus::Online);
        lemma_count_status_bound(statuses@, OnlineStatus::Idle);
        lemma_count_status_bound(statuses@, OnlineStatus::DoNotDisturb);
    }
    while i < statuses.len()
        invariant
            i <= statuses@.len(),
            present_total(statuses@) <= i32::MAX,
            0 <= count_status(statuses@, OnlineStatus::Online),
            0 <= count_status(statuses@, OnlineStatus::Idle),
            0 <= count_status(statuses@, OnlineStatus::DoNotDisturb),
            online == count_status(statuses@.subrange(0, i as int), OnlineStatus::Online),
            idle == count_status(statuses@.subrange(0, i as int), OnlineStatus::Idle),
            dnd == count_status(statuses@.subrange(0, i as int), OnlineStatus::DoNotDisturb),
        decreases statuses@.len() - i,
    {
        let ghost pre = statuses@.subrange(0, i as int);
        assert(statuses@.subrange(0, i + 1).drop_last() =~= pre);
        proof {
            lemma_count_status_prefix(statuses@, i + 1, OnlineStatus::Online);
            lemma_count_status_prefix(statuses@, i + 1, OnlineStatus::Idle);
            lemma_count_status_prefix(statuses@, i + 1, OnlineStatus::DoNotDisturb);
            lemma_count_status_bound(pre, OnlineStatus::Online);
            lemma_count_status_bound(pre, OnlineStatus::Idle);
            lemma_count_status_bound(pre, OnlineStatus::DoNotDisturb);
        }
        let st = statuses[i];
        if st == OnlineStatus::Online {
            online += 1;
        } else if st == OnlineStatus::Idle {
            idle += 1;
        } else if st == OnlineStatus::DoNotDisturb {
            dnd += 1;
        }
        i += 1;
    }
    assert(statuses@.subrange(0, i as int) =~= statuses@);
    ([online, idle, dnd], online + idle + dnd)
}

/// A role of a guild: its id, its position in the role list and its name.
pub struct RoleRow {
    pub id: u64,
    pub position: i64,
    pub name: String,
}

/// Roles order by position, then by id; the index in the input breaks
/// any remaining tie.
pub open spec fn key_lt(a: (i64, u64, usize), b: (i64, u64, usize)) -> bool {
    a.0 < b.0 || (a.0 == b.0 && (a.1 < b.1 || (a.1 == b.1 && a.2 < b.2)))
}

proof fn lemma_le_spec_key(a: (i64, u64, usize), b: (i64, u64, usize))
    ensures
        le_spec(a, b) == (key_lt(a, b) || a == b),
{
}

/// The role keys are totally ordered.
proof fn lemma_role_key_order()
    ensures
        total_order::<(i64, u64, usize)>(),
{
    assert forall|a: (i64, u64, usize), b: (i64, u64, usize)| #[trigger] le_spec(a, b) || #[trigger] le_spec(b, a) by {
        lemma_le_spec_key(a, b);
        lemma_le_spec_key(b, a);
    }
    assert forall|a: (i64, u64, usize), b: (i64, u64, usize), c: (i64, u64, usize)|
        #[trigger] le_spec(a, b) && #[trigger] le_spec(b, c) implies le_spec(a, c) by {
        lemma_le_spec_key(a, b);
        lemma_le_spec_key(b, c);
        lemma_le_spec_key(a, c);
    }
}

/// The sort key of the role at index `i`.
pub open spec fn role_key(roles: Seq<RoleRow>, i: int) -> (i64, u64, usize) {
    (roles[i].position, roles[i].id, i as usize)
}

/// `order` lists every index of `roles` once, highest role first.
pub open spec fn roles_descending(roles: Seq<RoleRow>, order: Seq<int>) -> bool {
    &&& order.len() == roles.len()
    &&& forall|i: int| 0 <= i < order.len() ==> 0 <= #[trigger] order[i] < roles.len()
    &&& order.no_duplicates()
    &&& forall|i: int, j: int| 0 <= i < j < order.len() ==> key_lt(
        role_key(roles, #[trigger] order[j]),
        role_key(roles, #[trigger] order[i]),
    )
}

/// One line of the role table: the id right-aligned in 18 columns, the
/// position right-aligned in 4, then the name.
pub open spec fn role_line(r: RoleRow) -> Seq<char> {
    pad_left(nat_decimal(r.id as nat), 18) + " "@ + pad_left(int_decimal(r.position as int), 4) + " "@ + r.name@ + "\n"@
}

/// The lines of the roles at `order`, in that order.
pub open spec fn role_lines(roles: Seq<RoleRow>, order: Seq<int>) -> Seq<char>
    decreases order.len(),
{
    if order.len() == 0 {
        Seq::empty()
    } else {
        role_lines(roles, order.drop_last()) + role_line(roles[order.last()])
    }
}

/// The two header lines of the role table.
pub open spec fn role_header() -> Seq<char> {
    pad_right("ID"@, 18) + " "@ + pad_right("Pos"@, 4) + " "@ + "Name"@ + "\n"@
        + pad_right("---"@, 18) + " "@ + pad_right("---"@, 4) + " "@ + "---"@ + "\n"@
}

fn push_header_line(s: &mut String, a: &str, b: &str, c: &str)
    ensures
        final(s)@ == old(s)@ + pad_right(a@, 18) + " "@ + pad_right(b@, 4) + " "@ + c@ + "\n"@,
{
    push_padded_right(s, a, 18);
    s.append(" ");
    push_padded_right(s, b, 4);
    s.append(" ");
    s.append(c);
    s.append("\n");
}

/// The role table of a guild: a header, then one line per role from the
/// highest role down.
pub fn role_table(roles: &Vec<RoleRow>) -> (r: String)
    ensures
        exists|order: Seq<int>| roles_descending(roles@, order) && r@ == role_header() + role_lines(roles@, order),
{
    let n = roles.len();
    let mut keys: Vec<(i64, u64, usize)> = Vec::new();
    let mut i: usize = 0;
    while i < n
        invariant
            i <= n == roles@.len(),
            keys@.len() == i,
            forall|k: int| 0 <= k < i ==> #[trigger] keys@[k] == role_key(roles@, k),
        decreases n - i,
    {
        keys.push((roles[i].position, roles[i].id, i));
        i = i + 1;
    }
    let ghost keys0 = keys@;
    proof { lemma_role_key_order(); }
    quick_sort(keys.as_mut_slice());
    let ghost sorted = keys@;
    proof {
        assert(keys0.no_duplicates());
        keys0.lemma_multiset_has_no_duplicates();
        sorted.lemma_multiset_has_no_duplicates_conv();
        assert forall|k: int| 0 <= k < n implies ({
            let x = #[trigger] sorted[k];
            0 <= x.2 < n && x == role_key(roles@, x.2 as int)
        }) by {
            assert(sorted.contains(sorted[k]));
            let j = lemma_multiset_member(sorted, keys0, sorted[k]);
        }
    }
    let ghost order = Seq::new(n as nat, |i: int| sorted[n - 1 - i].2 as int);
    let mut out = String::new();
    push_header_line(&mut out, "ID", "Pos", "Name");
    push_header_line(&mut out, "---", "---", "---");
    let mut j: usize = n;
    while j > 0
        invariant
            j <= n == roles@.len() == keys@.len(),
            keys@ == sorted,
            forall|k: int| 0 <= k < n ==> ({
                let x = #[trigger] sorted[k];
                0 <= x.2 < n && x == role_key(roles@, x.2 as int)
            }),
            order == Seq::new(n as nat, |i: int| sorted[n - 1 - i].2 as int),
            out@ == role_header() + role_lines(roles@, order.subrange(0, n - j)),
        decreases j,
    {
        j = j - 1;
        let idx = keys[j].2;
        assert(sorted[j as int] == role_key(roles@, idx as int));
        let row = &roles[idx];
        let ghost before = out@;
        push_padded_left(&mut out, u64_to_decimal(row.id).as_str(), 18);
        out.append(" ");
        push_padded_left(&mut out, i64_to_decimal(row.position).as_str(), 4);
        out.append(" ");
        out.append(row.name.as_str());
        out.append("\n");
        assert(order.subrange(0, n - j).drop_last() =~= order.subrange(0, n - j - 1));
        assert(order.subrange(0, n - j).last() == idx as int);
        assert(out@ =~= before + role_line(roles@[idx as int]));
    }
    proof {
        assert(order.subrange(0, n as int) =~= order);
        assert(sorted_le(sorted));
        assert forall|a: int, b: int| 0 <= a < b < order.len() implies key_lt(
            role_key(roles@, #[trigger] order[b]),
            role_key(roles@, #[trigger] order[a]),
        ) by {
            let x = sorted[n - 1 - b];
            let y = sorted[n - 1 - a];
            assert(le_spec(x, y));
            lemma_le_spec_key(x, y);
            assert(x != y);
        }
        assert forall|a: int, b: int| 0 <= a < order.len() && 0 <= b < order.len() && a != b
            implies order[a] != order[b] by {
            assert(sorted[n - 1 - a] != sorted[n - 1 - b]);
        }
        assert(roles_descending(roles@, order));
    }
    out
}

// ---------------------------------------------------------------------------
// Bot-wide statistics

/// A guild as the status command reads it: how many channels it has and
/// the ids of its members.
pub struct GuildMembers {
    pub channels: usize,
    pub members: Vec<u64>,
}

/// Counts over all guilds the bot is in.
#[derive(Clone, Copy, Debug, PartialEq, Eq, Structural)]
pub struct GuildStats {
    pub guild_count: usize,
    pub channel_count: usize,
    pub user_count: usize,
    pub user_unique_count: usize,
    pub user_duplicate_count: usize,
}

/// Every membership, guild by guild.
pub open spec fn all_members(gs: Seq<GuildMembers>) -> Seq<u64>
    decreases gs.len(),
{
    if gs.len() == 0 {
        Seq::empty()
    } else {
        all_members(gs.drop_last()) + gs.last().members@
    }
}

/// All channels of all guilds.
pub open spec fn all_channels(gs: Seq<GuildMembers>) -> int
    decreases gs.len(),
{
    if gs.len() == 0 {
        0
    } else {
        all_channels(gs.drop_last()) + gs.last().channels
    }
}

proof fn lemma_count_prefix(pre: Seq<u64>, all: Seq<u64>, x: u64)
    requires
        pre.len() <= all.len(),
        pre == all.subrange(0, pre.len() as int),
    ensures
        pre.to_multiset().count(x) <= all.to_multiset().count(x),
{
    broadcast use vstd::seq_lib::lemma_multiset_commutative;
    broadcast use vstd::multiset::group_multiset_axioms;
    assert(all =~= pre + all.subrange(pre.len() as int, all.len() as int));
}

proof fn lemma_all_members_prefix(gs: Seq<GuildMembers>, g: int)
    requires
        0 <= g <= gs.len(),
    ensures
        all_members(gs.subrange(0, g)).len() <= all_members(gs).len(),
        all_members(gs.subrange(0, g)) == all_members(gs).subrange(0, all_members(gs.subrange(0, g)).len() as int),
        all_channels(gs.subrange(0, g)) <= all_channels(gs),
    decreases gs.len() - g,
{
    if g < gs.len() {
        lemma_all_members_prefix(gs, g + 1);
        assert(gs.subrange(0, g + 1).drop_last() =~= gs.subrange(0, g));
    } else {
        assert(gs.subrange(0, g) =~= gs);
    }
}

/// Whether every count of the status command fits its integer: the
/// channels and memberships in `usize`, the memberships of one user in
/// `u32`, and the duplicate count `memberships − unique users + 1 − guilds`
/// is not negative.
pub open spec fn stats_fit(gs: Seq<GuildMembers>) -> bool {
    &&& all_channels(gs) <= usize::MAX
    &&& all_members(gs).len() <= usize::MAX
    &&& forall|x: u64| #[trigger] all_members(gs).to_multiset().count(x) <= u32::MAX
    &&& all_members(gs).len() - all_members(gs).to_set().len() + 1 - gs.len() >= 0
}

proof fn lemma_no_guilds(gs: Seq<GuildMembers>)
    requires
        gs.len() == 0,
    ensures
        all_members(gs).len() == 0,
        all_members(gs).to_set().len() == 0,
{
    assert(all_members(gs).to_set() =~= Set::<u64>::empty());
}

proof fn lemma_count_absent(s: Seq<u64>, x: u64)
    requires
        !s.to_set().contains(x),
    ensures
        s.to_multiset().count(x) == 0,
{
    broadcast use vstd::seq_lib::group_seq_properties;
    broadcast use vstd::seq_lib::group_to_multiset_ensures;
    assert(!s.contains(x));
}

/// Counts the guilds, their channels and their members; a member of several
/// guilds counts once among the unique users, and the memberships past the
/// first of each user, less one per guild past the first, are the
/// duplicates. `None` when a count does not fit (see `stats_fit`).
pub fn guild_statistics(guilds: &Vec<GuildMembers>) -> (r: Option<GuildStats>)
    ensures
        r is Some <==> stats_fit(guilds@),
        r matches Some(st) ==> {
            &&& st.guild_count == guilds@.len()
            &&& st.channel_count == all_channels(guilds@)
            &&& st.user_count == all_members(guilds@).len()
            &&& st.user_unique_count == all_members(guilds@).to_set().len()
            &&& st.user_duplicate_count == all_members(guilds@).len() - all_members(guilds@).to_set().len()
                + 1 - guilds@.len()
        },
{
    broadcast use vstd::seq_lib::to_multiset_build;
    broadcast use vstd::seq_lib::group_seq_properties;
    broadcast use Seq::lemma_push_to_set_commute;
    broadcast use vstd::multiset::group_multiset_axioms;
    let ghost all = all_members(guilds@);
    let mut user_ids: HashMap<u64, u32> = HashMap::new();
    let mut guild_count: usize = 0;
    let mut channel_count: usize = 0;
    let mut user_count: usize = 0;
    let mut g: usize = 0;
    while g < guilds.len()
        invariant
            g <= guilds@.len(),
            all == all_members(guilds@),
            guild_count == g,
            channel_count == all_channels(guilds@.subrange(0, g as int)),
            user_count == all_members(guilds@.subrange(0, g as int)).len(),
            user_ids@.dom() == all_members(guilds@.subrange(0, g as int)).to_set(),
            forall|k: u64| #[trigger] user_ids@.contains_key(k) ==> user_ids@[k] == all_members(guilds@.subrange(0, g as int)).to_multiset().count(k),
        decreases guilds@.len() - g,
    {
        let ghost pre = all_members(guilds@.subrange(0, g as int));
        proof {
            lemma_all_members_prefix(guilds@, g + 1);
            assert(guilds@.subrange(0, g + 1).drop_last() =~= guilds@.subrange(0, g as int));
            assert(guilds@.subrange(0, g + 1).last() == guilds@[g as int]);
        }
        let ghost next = all_members(guilds@.subrange(0, g + 1));
        let guild = &guilds[g];
        assert(all_channels(guilds@.subrange(0, g + 1)) == all_channels(guilds@.subrange(0, g as int)) + guilds@[g as int].channels);
        guild_count += 1;
        channel_count = match channel_count.checked_add(guild.channels) {
            Some(c) => c,
            None => {
                return None;
            },
        };
        let mut j: usize = 0;
        while j < guild.members.len()
            invariant
                j <= guild.members@.len(),
                all == all_members(guilds@),
                next == pre + guild.members@,
                next.len() <= all.len(),
                next == all.subrange(0, next.len() as int),
                user_count == pre.len() + j,
                user_ids@.dom() == (pre + guild.members@.subrange(0, j as int)).to_set(),
                forall|k: u64| #[trigger] user_ids@.contains_key(k) ==> user_ids@[k] == (pre + guild.members@.subrange(0, j as int)).to_multiset().count(k),
            decreases guild.members@.len() - j,
        {
            let id = guild.members[j];
            let ghost seen = pre + guild.members@.subrange(0, j as int);
            assert(pre + guild.members@.subrange(0, j + 1) =~= seen.push(id));
            proof {
                assert(seen.push(id) =~= next.subrange(0, seen.len() as int + 1));
                lemma_count_prefix(seen.push(id), next, id);
                lemma_count_prefix(next, all, id);
                if !user_ids@.contains_key(id) {
                    lemma_count_absent(seen, id);
                }
            }
            let ghost m0 = user_ids@;
            let c: u32 = match user_ids.get(&id) {
                Some(c) => *c,
                None => 0,
            };
            assert(c == seen.to_multiset().count(id));
            proof {
                vstd::seq_lib::to_multiset_build(seen, id);
                seen.lemma_push_to_set_commute(id);
            }
            assert(seen.push(id).to_multiset().count(id) == c + 1);
            let c1: u32 = match c.checked_add(1) {
                Some(c1) => c1,
                None => {
                    assert(all.to_multiset().count(id) > u32::MAX);
                    assert(!stats_fit(guilds@));
                    return None;
                },
            };
            user_count = match user_count.checked_add(1) {
                Some(u) => u,
                None => {
                    assert(seen.push(id).len() <= all.len());
                    return None;
                },
            };
            user_ids.insert(id, c1);
            proof {
                assert(user_ids@ == m0.insert(id, c1));
                assert(user_ids@.dom() =~= seen.push(id).to_set());
                assert forall|k: u64| #[trigger] user_ids@.contains_key(k) implies user_ids@[k] == seen.push(id).to_multiset().count(k) by {
                    if k != id {
                        assert(seen.push(id).to_multiset().count(k) == seen.to_multiset().count(k));
                    }
                }
            }
            j += 1;
        }
        assert(guild.members@.subrange(0, guild.members@.len() as int) =~= guild.members@);
        g += 1;
    }
    assert(guilds@.subrange(0, g as int) =~= guilds@);
    proof {
        all.lemma_cardinality_of_set();
        assert forall|x: u64| #[trigger] all.to_multiset().count(x) <= u32::MAX by {
            if !user_ids@.contains_key(x) {
                lemma_count_absent(all, x);
            }
        }
        if g == 0 {
            lemma_no_guilds(guilds@);
        }
    }
    let user_unique_count = user_ids.len();
    let d = user_count - user_unique_count;
    let user_duplicate_count = if guild_count == 0 {
        1
    } else if d >= guild_count - 1 {
        d - (guild_count - 1)
    } else {
        return None;
    };
    Some(GuildStats { guild_count, channel_count, user_count, user_unique_count, user_duplicate_count })
}

// ---------------------------------------------------------------------------
// Texts of the guild commands

/// Appends the decimal text of `n`.
fn push_decimal(s: &mut String, n: u64)
    ensures
        final(s)@ == old(s)@ + nat_decimal(n as nat),
{
    let t = u64_to_decimal(n);
    s.append(t.as_str());
}

/// Appends the decimal text of `n`, with a `-` when it is negative.
fn push_signed_decimal(s: &mut String, n: i64)
    ensures
        final(s)@ == old(s)@ + int_decimal(n as int),
{
    let t = i64_to_decimal(n);
    s.append(t.as_str());
}

/// The guild's owner, when the chat service could fetch the user.
pub struct OwnerInfo {
    pub name: String,
    pub discriminator: u16,
    pub id: u64,
}

/// The guild's AFK channel: its id, and how it is shown when the chat
/// service could fetch it.
pub struct AfkChannel {
    pub id: u64,
    pub shown: Option<String>,
}

/// A guild as the `guild_info` command reads it.
pub struct GuildInfo {
    pub name: String,
    pub owner: Option<OwnerInfo>,
    pub verification: VerificationLevel,
    pub region: String,
    pub channel_count: usize,
    pub afk_channel: Option<AfkChannel>,
    pub afk_timeout: u64,
    pub member_count: u64,
    pub statuses: Vec<OnlineStatus>,
    pub roles: Vec<RoleRow>,
}

/// The texts of the `guild_info` embed.
pub struct GuildInfoTexts {
    pub title: String,
    pub description: String,
    pub channels: String,
    pub users: String,
    pub roles: String,
}

/// `name#discriminator (id)`, or a note when the owner could not be fetched.
pub open spec fn owner_text(o: Option<OwnerInfo>) -> Seq<char> {
    match o {
        Some(u) => u.name@ + "#"@ + nat_decimal(u.discriminator as nat) + " ("@ + nat_decimal(u.id as nat) + ")"@,
        None => "~ Unable to retrieve Owner"@,
    }
}

/// The AFK channel as shown, its id when it could not be fetched, or a
/// note when the guild has none.
pub open spec fn afk_text(a: Option<AfkChannel>) -> Seq<char> {
    match a {
        Some(c) => match c.shown {
            Some(t) => t@,
            None => "None (ID: "@ + nat_decimal(c.id as nat) + ")"@,
        },
        None => "No AFK Channel"@,
    }
}

/// The description: owner, verification and region.
pub open spec fn guild_description_text(i: GuildInfo) -> Seq<char> {
    "**Owner**: "@ + owner_text(i.owner) + "\n**Verification**: "@ + verification_text_spec(i.verification)
        + "\n**Region**: "@ + i.region@
}

/// The `Channels` field: count, AFK channel and AFK timeout.
pub open spec fn channels_text(i: GuildInfo) -> Seq<char> {
    "**Count**: "@ + nat_decimal(i.channel_count as nat) + "\n**AFK Channel**: "@ + afk_text(i.afk_channel)
        + "\n**AFK Timeout**: "@ + nat_decimal(i.afk_timeout as nat) + "s\n"@
}

/// The `Users` field: the member count, the members present, and those
/// online, idle and not to be disturbed.
pub open spec fn users_text(i: GuildInfo) -> Seq<char> {
    let s = i.statuses@;
    "**Total User**: "@ + nat_decimal(i.member_count as nat) + "\n**Online Users**: "@ + int_decimal(present_total(s))
        + "\n | -> *Online*: "@ + int_decimal(count_status(s, OnlineStatus::Online))
        + "\n | -> *Idle*: "@ + int_decimal(count_status(s, OnlineStatus::Idle))
        + "\n | -> *DND*: "@ + int_decimal(count_status(s, OnlineStatus::DoNotDisturb))
}

/// Each presence count is the number of statuses equal to its own status.
pub proof fn lemma_count_status_counts(s: Seq<OnlineStatus>, st: OnlineStatus)
    ensures
        count_status(s, st) == s.filter(|x: OnlineStatus| x == st).len(),
    decreases s.len(),
{
    reveal_with_fuel(Seq::filter, 1);
    if s.len() > 0 {
        lemma_count_status_counts(s.drop_last(), st);
    }
}

/// The `Users` field reads: the member count, then the members present,
/// which is the sum of the three numbers below it, then the number of
/// statuses that are `Online`, `Idle` and `DoNotDisturb`, each after its
/// own label.
pub proof fn lemma_users_text_counts(i: GuildInfo)
    ensures
        ({
            let s = i.statuses@;
            let online = s.filter(|x: OnlineStatus| x == OnlineStatus::Online).len() as int;
            let idle = s.filter(|x: OnlineStatus| x == OnlineStatus::Idle).len() as int;
            let dnd = s.filter(|x: OnlineStatus| x == OnlineStatus::DoNotDisturb).len() as int;
            users_text(i) == "**Total User**: "@ + nat_decimal(i.member_count as nat) + "\n**Online Users**: "@
                + int_decimal(online + idle + dnd) + "\n | -> *Online*: "@ + int_decimal(online)
                + "\n | -> *Idle*: "@ + int_decimal(idle) + "\n | -> *DND*: "@ + int_decimal(dnd)
        }),
{
    lemma_count_status_counts(i.statuses@, OnlineStatus::Online);
    lemma_count_status_counts(i.statuses@, OnlineStatus::Idle);
    lemma_count_status_counts(i.statuses@, OnlineStatus::DoNotDisturb);
}

fn owner_string(o: &Option<OwnerInfo>) -> (r: String)
    ensures
        r@ == owner_text(*o),
{
    match o {
        Some(u) => {
            let mut r = String::new();
            r.append(u.name.as_str());
            r.append("#");
            push_decimal(&mut r, u.discriminator as u64);
            r.append(" (");
            push_decimal(&mut r, u.id);
            r.append(")");
            assert(r@ =~= owner_text(*o));
            r
        },
        None => String::from_str("~ Unable to retrieve Owner"),
    }
}

fn afk_string(a: &Option<AfkChannel>) -> (r: String)
    ensures
        r@ == afk_text(*a),
{
    match a {
        Some(c) => match &c.shown {
            Some(t) => t.clone(),
            None => {
                let mut r = String::from_str("None (ID: ");
                push_decimal(&mut r, c.id);
                r.append(")");
                r
            },
        },
        None => String::from_str("No AFK Channel"),
    }
}

/// The texts of the `guild_info` embed for `info`: the title, the
/// description, the channel and user fields, and the role table in a code
/// block, highest role first.
pub fn guild_info_texts(info: &GuildInfo) -> (r: GuildInfoTexts)
    requires
        present_total(info.statuses@) <= i32::MAX,
    ensures
        r.title@ == "Statistics for "@ + info.name@,
        r.description@ == guild_description_text(*info),
        r.channels@ == channels_text(*info),
        r.users@ == users_text(*info),
        exists|order: Seq<int>| roles_descending(info.roles@, order)
            && r.roles@ == "```"@ + role_header() + role_lines(info.roles@, order) + "```"@,
{
    let mut title = String::from_str("Statistics for ");
    title.append(info.name.as_str());

    let mut description = String::from_str("**Owner**: ");
    let owner = owner_string(&info.owner);
    description.append(owner.as_str());
    description.append("\n**Verification**: ");
    description.append(verification_text(info.verification));
    description.append("\n**Region**: ");
    description.append(info.region.as_str());

    let mut channels = String::from_str("**Count**: ");
    push_decimal(&mut channels, info.channel_count as u64);
    channels.append("\n**AFK Channel**: ");
    let afk = afk_string(&info.afk_channel);
    channels.append(afk.as_str());
    channels.append("\n**AFK Timeout**: ");
    push_decimal(&mut channels, info.afk_timeout);
    channels.append("s\n");

    let (counts, total) = count_presences(&info.statuses);
    let mut users = String::from_str("**Total User**: ");
    push_decimal(&mut users, info.member_count);
    users.append("\n**Online Users**: ");
    push_signed_decimal(&mut users, total as i64);
    users.append("\n | -> *Online*: ");
    push_signed_decimal(&mut users, counts[0] as i64);
    users.append("\n | -> *Idle*: ");
    push_signed_decimal(&mut users, counts[1] as i64);
    users.append("\n | -> *DND*: ");
    push_signed_decimal(&mut users, counts[2] as i64);

    let table = role_table(&info.roles);
    let mut roles = String::from_str("```");
    roles.append(table.as_str());
    roles.append("```");
    GuildInfoTexts { title, description, channels, users, roles }
}

/// The `Guild Statistics` field of the status command.
pub open spec fn guild_statistics_text_spec(st: GuildStats) -> Seq<char> {
    "*"@ + nat_decimal(st.guild_count as nat) + "* Guilds\n*"@ + nat_decimal(st.channel_count as nat)
        + "* Channels\n*"@ + nat_decimal(st.user_count as nat) + "* Users\n | -> *"@
        + nat_decimal(st.user_unique_count as nat) + "* Unique\n | -> *"@
        + nat_decimal(st.user_duplicate_count as nat) + "* Duplicates"@
}

/// Writes the guild counts as the status command shows them.
pub fn guild_statistics_text(st: &GuildStats) -> (r: String)
    ensures
        r@ == guild_statistics_text_spec(*st),
{
    let mut r = String::from_str("*");
    push_decimal(&mut r, st.guild_count as u64);
    r.append("* Guilds\n*");
    push_decimal(&mut r, st.channel_count as u64);
    r.append("* Channels\n*");
    push_decimal(&mut r, st.user_count as u64);
    r.append("* Users\n | -> *");
    push_decimal(&mut r, st.user_unique_count as u64);
    r.append("* Unique\n | -> *");
    push_decimal(&mut r, st.user_duplicate_count as u64);
    r.append("* Duplicates");
    r
}

/// The description of the status command: when the bot started, as the
/// text `started`, and how long it has run.
pub fn status_description(started: &str, uptime: Duration) -> (r: String)
    ensures
        r@ == "**Started**: "@ + started@ + "\n**Uptime**: "@ + duration_text(uptime.seconds as int),
{
    let mut r = String::from_str("**Started**: ");
    r.append(started);
    r.append("\n**Uptime**: ");
    let up = duration_to_ascii(uptime);
    r.append(up.as_str());
    r
}

} // verus!
