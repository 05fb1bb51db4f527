//! Self-assigned colour roles: their names, which roles a member gives up for
//! a new colour, and which roles the periodic clean-up deletes.
use std::collections::HashMap;
use vstd::prelude::*;

use crate::outside::{lowercase, unicode_lowercase};
use crate::text::{
    chars_of, decimal, has_prefix, hex_upper, push_decimal, push_hex, push_str, push_zero_padded,
    same_chars, starts_with, string_of, zero_pad,
};

verus! {

/// A role of a server: its id, its name, whether an integration manages it,
/// and its position in the server's role list.
pub struct RoleInfo {
    pub id: u64,
    pub name: String,
    pub managed: bool,
    pub position: u16,
}

/// The name of the role whose presence enables colour roles on a server.
pub open spec fn anchor_name() -> Seq<char> {
    "=== Moete: Colors ==="@
}

/// A colour as `#RRGGBB`: upper-case hexadecimal, padded to six digits.
pub open spec fn hex_color(color: u32) -> Seq<char> {
    "#"@ + zero_pad(hex_upper(color as nat), 6)
}

/// Renders a colour as `#RRGGBB`.
pub fn color_to_hex(color: u32) -> (r: String)
    ensures
        r@ == hex_color(color),
{
    let mut digits: Vec<char> = Vec::new();
    push_hex(&mut digits, color as u64);
    let mut out: Vec<char> = Vec::new();
    push_str(&mut out, "#");
    push_zero_padded(&mut out, &digits, 6);
    string_of(&out)
}

/// The name of the colour role for a colour: `M#RRGGBB`.
pub fn color_role_name(color: u32) -> (r: String)
    ensures
        r@ == "M"@ + hex_color(color),
{
    let mut out: Vec<char> = Vec::new();
    push_str(&mut out, "M");
    let hex = color_to_hex(color);
    push_str(&mut out, hex.as_str());
    string_of(&out)
}

/// A role is a colour role when its name starts with `M#`.
pub open spec fn is_color_role_name(name: Seq<char>) -> bool {
    has_prefix(name, "M#"@)
}

/// Whether a role name marks a colour role.
pub fn is_color_role(name: &str) -> (r: bool)
    ensures
        r == is_color_role_name(name@),
{
    let cs = chars_of(name);
    let p = chars_of("M#");
    starts_with(&cs, &p)
}

/// A role is the anchor when its name is the anchor's, compared in Unicode
/// lower case.
pub open spec fn is_anchor_name(name: Seq<char>) -> bool {
    unicode_lowercase(name) == unicode_lowercase(anchor_name())
}

/// The position of the first role of `roles` that is the anchor, if any.
pub fn find_anchor(roles: &Vec<RoleInfo>) -> (r: Option<usize>)
    ensures
        r matches Some(i) ==> i < roles@.len() && is_anchor_name(roles@[i as int].name@) && forall|
            k: int,
        | 0 <= k < i ==> !is_anchor_name(#[trigger] roles@[k].name@),
        r is None ==> forall|i: int| 0 <= i < roles@.len() ==> !is_anchor_name(#[trigger] roles@[i].name@),
{
    let anchor = chars_of(lowercase("=== Moete: Colors ===").as_str());
    let mut i: usize = 0;
    while i < roles.len()
        invariant
            i <= roles.len(),
            anchor@ == unicode_lowercase(anchor_name()),
            forall|k: int| 0 <= k < i ==> !is_anchor_name(#[trigger] roles@[k].name@),
        decreases roles.len() - i,
    {
        let l = chars_of(lowercase(roles[i].name.as_str()).as_str());
        if same_chars(&l, &anchor) {
            return Some(i);
        }
        i = i + 1;
    }
    None
}

/// The position of the first role of `roles` named exactly `name`, if any.
pub fn find_role_named(roles: &Vec<RoleInfo>, name: &str) -> (r: Option<usize>)
    ensures
        r matches Some(i) ==> i < roles@.len() && roles@[i as int].name@ == name@ && forall|k: int|
            0 <= k < i ==> #[trigger] roles@[k].name@ != name@,
        r is None ==> forall|i: int| 0 <= i < roles@.len() ==> #[trigger] roles@[i].name@ != name@,
{
    let target = chars_of(name);
    let mut i: usize = 0;
    while i < roles.len()
        invariant
            i <= roles.len(),
            target@ == name@,
            forall|k: int| 0 <= k < i ==> #[trigger] roles@[k].name@ != name@,
        decreases roles.len() - i,
    {
        let l = chars_of(roles[i].name.as_str());
        if same_chars(&l, &target) {
            return Some(i);
        }
        i = i + 1;
    }
    None
}

/// Where the role for a colour comes from.
#[derive(Debug, PartialEq, Eq)]
pub enum ColorRoleSource {
    /// The server has no anchor role: colour roles are not supported.
    Unsupported,
    /// The server already has the colour's role, with this id.
    Existing(u64),
    /// The role is to be made, with this name, at the anchor's position.
    Create { name: String, position: u16 },
}

/// The position of the first role of `roles` that satisfies `p`, or the
/// number of roles when none does.
pub open spec fn first_where(roles: Seq<RoleInfo>, p: spec_fn(RoleInfo) -> bool) -> int
    decreases roles.len(),
{
    if roles.len() == 0 {
        0
    } else if p(roles[0]) {
        0
    } else {
        first_where(roles.drop_first(), p) + 1
    }
}

/// `first_where` is `i` when `i` is the first position that satisfies `p`.
proof fn lemma_first_where(roles: Seq<RoleInfo>, p: spec_fn(RoleInfo) -> bool, i: int)
    requires
        0 <= i <= roles.len(),
        forall|k: int| 0 <= k < i ==> !p(#[trigger] roles[k]),
        i < roles.len() ==> p(roles[i]),
    ensures
        first_where(roles, p) == i,
    decreases roles.len(),
{
    if roles.len() > 0 && !p(roles[0]) {
        assert forall|k: int| 0 <= k < i - 1 implies !p(#[trigger] roles.drop_first()[k]) by {
            assert(roles.drop_first()[k] == roles[k + 1]);
        }
        lemma_first_where(roles.drop_first(), p, i - 1);
    }
}

/// `first_where` is a position of the roles, or their number; no role before
/// it satisfies `p`, and the role at it does.
proof fn lemma_first_where_bounds(roles: Seq<RoleInfo>, p: spec_fn(RoleInfo) -> bool)
    ensures
        0 <= first_where(roles, p) <= roles.len(),
        forall|k: int| 0 <= k < first_where(roles, p) ==> !p(#[trigger] roles[k]),
        first_where(roles, p) < roles.len() ==> p(roles[first_where(roles, p)]),
    decreases roles.len(),
{
    if roles.len() > 0 && !p(roles[0]) {
        lemma_first_where_bounds(roles.drop_first(), p);
        assert forall|k: int| 0 <= k < first_where(roles, p) implies !p(#[trigger] roles[k]) by {
            if k > 0 {
                assert(roles[k] == roles.drop_first()[k - 1]);
            }
        }
        if first_where(roles, p) < roles.len() {
            assert(roles[first_where(roles, p)] == roles.drop_first()[first_where(roles, p) - 1]);
        }
    }
}

/// Adding a role after the others leaves the first role that satisfies `p`
/// where it was, or makes the new role the first when none did and it does.
proof fn lemma_first_where_push(roles: Seq<RoleInfo>, p: spec_fn(RoleInfo) -> bool, x: RoleInfo)
    ensures
        first_where(roles, p) < roles.len() ==> first_where(roles.push(x), p) == first_where(
            roles,
            p,
        ),
        first_where(roles, p) >= roles.len() && p(x) ==> first_where(roles.push(x), p)
            == roles.len(),
{
    lemma_first_where_bounds(roles, p);
    let f = first_where(roles, p);
    let r2 = roles.push(x);
    assert forall|k: int| 0 <= k < f implies !p(#[trigger] r2[k]) by {
        assert(r2[k] == roles[k]);
    }
    if f < roles.len() {
        assert(r2[f] == roles[f]);
        lemma_first_where(r2, p, f);
    } else if p(x) {
        assert(r2[roles.len() as int] == x);
        lemma_first_where(r2, p, roles.len() as int);
    }
}

/// Where the role for `color` comes from: on a server without the anchor
/// role, nowhere; else the first role named `M#RRGGBB`, if any; else a new
/// role of that name, placed at the position of the first anchor role.
pub open spec fn color_role_source_spec(roles: Seq<RoleInfo>, color: u32) -> (
    Option<u64>,
    Option<u16>,
) {
    let a = first_where(roles, |r: RoleInfo| is_anchor_name(r.name@));
    let e = first_where(roles, |r: RoleInfo| r.name@ == "M"@ + hex_color(color));
    if a >= roles.len() {
        (None, None)
    } else if e < roles.len() {
        (Some(roles[e].id), None)
    } else {
        (None, Some(roles[a].position))
    }
}

/// Decides where the role for `color` comes from.
pub fn color_role_source(roles: &Vec<RoleInfo>, color: u32) -> (r: ColorRoleSource)
    ensures
        match r {
            ColorRoleSource::Unsupported => color_role_source_spec(roles@, color) == (
                None::<u64>,
                None::<u16>,
            ),
            ColorRoleSource::Existing(id) => color_role_source_spec(roles@, color) == (
                Some(id),
                None::<u16>,
            ),
            ColorRoleSource::Create { name, position } => color_role_source_spec(roles@, color) == (
                None::<u64>,
                Some(position),
            ) && name@ == "M"@ + hex_color(color),
        },
{
    let ghost pa = |r: RoleInfo| is_anchor_name(r.name@);
    let ghost pe = |r: RoleInfo| r.name@ == "M"@ + hex_color(color);
    let a = match find_anchor(roles) {
        Some(a) => a,
        None => {
            proof {
                lemma_first_where(roles@, pa, roles@.len() as int);
            }
            return ColorRoleSource::Unsupported;
        },
    };
    let name = color_role_name(color);
    let found = find_role_named(roles, name.as_str());
    proof {
        // `find_anchor` stops at the first anchor.
        assert(forall|k: int| 0 <= k < a ==> !pa(#[trigger] roles@[k]));
        lemma_first_where(roles@, pa, a as int);
    }
    match found {
        Some(e) => {
            proof {
                assert(forall|k: int| 0 <= k < e ==> !pe(#[trigger] roles@[k]));
                lemma_first_where(roles@, pe, e as int);
            }
            ColorRoleSource::Existing(roles[e].id)
        },
        None => {
            proof {
                lemma_first_where(roles@, pe, roles@.len() as int);
            }
            ColorRoleSource::Create { name, position: roles[a].position }
        },
    }
}

/// A colour gets at most one role: once the role it asks to make is added
/// to the server's roles (whatever its id and position), the same colour
/// finds that role instead of making another; and a colour that finds a role
/// keeps finding it, whatever roles are added after.
pub proof fn law_color_role_made_once(roles: Seq<RoleInfo>, color: u32, made: RoleInfo, other: RoleInfo)
    requires
        made.name@ == "M"@ + hex_color(color),
    ensures
        color_role_source_spec(roles, color).1 is Some ==> color_role_source_spec(
            roles.push(made),
            color,
        ) == (Some(made.id), None::<u16>),
        color_role_source_spec(roles, color).0 is Some ==> color_role_source_spec(
            roles.push(other),
            color,
        ) == color_role_source_spec(roles, color),
{
    let pa = |r: RoleInfo| is_anchor_name(r.name@);
    let pe = |r: RoleInfo| r.name@ == "M"@ + hex_color(color);
    lemma_first_where_bounds(roles, pa);
    lemma_first_where_bounds(roles, pe);
    lemma_first_where_push(roles, pa, made);
    lemma_first_where_push(roles, pe, made);
    lemma_first_where_push(roles, pa, other);
    lemma_first_where_push(roles, pe, other);
    let a = first_where(roles, pa);
    let e = first_where(roles, pe);
    if color_role_source_spec(roles, color).1 is Some {
        assert(a < roles.len() && e >= roles.len());
        assert(pe(made));
        assert(roles.push(made)[roles.len() as int] == made);
    }
    if color_role_source_spec(roles, color).0 is Some {
        assert(a < roles.len() && e < roles.len());
        assert(roles.push(other)[e] == roles[e]);
    }
}

/// What clearing a member's colour roles answers: whether the server
/// supports them, and whether any was taken.
pub fn clear_message(supported: bool, removed_any: bool) -> (r: String)
    ensures
        !supported ==> r@ == "Moete's custom color roles are not supported on this server."@,
        supported && removed_any ==> r@ == "Your custom color roles have been removed."@,
        supported && !removed_any ==> r@ == "You have no custom color roles to remove."@,
{
    if !supported {
        string_of(&chars_of("Moete's custom color roles are not supported on this server."))
    } else if removed_any {
        string_of(&chars_of("Your custom color roles have been removed."))
    } else {
        string_of(&chars_of("You have no custom color roles to remove."))
    }
}

/// The progress a colour change ends with: already applied, or added.
pub fn color_progress(already_applied: bool) -> (r: String)
    ensures
        already_applied ==> r@ == "```Already applied```"@,
        !already_applied ==> r@ == "```Added!```"@,
{
    if already_applied {
        string_of(&chars_of("```Already applied```"))
    } else {
        string_of(&chars_of("```Added!```"))
    }
}

/// What applying a colour does to a member's roles.
pub struct ColorPlan {
    /// The colour roles taken from the member, in order.
    pub remove: Vec<u64>,
    /// The member already has the colour's role; it is not added again.
    pub already_applied: bool,
}

/// The position of the first of the member's roles that is the colour's role,
/// or the number of roles when none is.
pub open spec fn first_with_id(roles: Seq<(u64, Seq<char>)>, id: u64) -> int
    decreases roles.len(),
{
    if roles.len() == 0 {
        0
    } else if roles[0].0 == id {
        0
    } else {
        first_with_id(roles.drop_first(), id) + 1
    }
}

/// The ids of the colour roles among `roles`, in order.
pub open spec fn color_role_ids(roles: Seq<(u64, Seq<char>)>) -> Seq<u64>
    decreases roles.len(),
{
    if roles.len() == 0 {
        Seq::empty()
    } else if is_color_role_name(roles.last().1) {
        color_role_ids(roles.drop_last()).push(roles.last().0)
    } else {
        color_role_ids(roles.drop_last())
    }
}

/// The plain values of roles: id and name.
pub open spec fn role_values(roles: Seq<RoleInfo>) -> Seq<(u64, Seq<char>)> {
    roles.map_values(|r: RoleInfo| (r.id, r.name@))
}

/// `first_with_id` is `i` when `i` is the first position holding the id.
proof fn lemma_first_with_id(roles: Seq<(u64, Seq<char>)>, id: u64, i: int)
    requires
        0 <= i <= roles.len(),
        forall|k: int| 0 <= k < i ==> #[trigger] roles[k].0 != id,
        i < roles.len() ==> roles[i].0 == id,
    ensures
        first_with_id(roles, id) == i,
    decreases roles.len(),
{
    if roles.len() > 0 && roles[0].0 != id {
        assert forall|k: int| 0 <= k < i - 1 implies #[trigger] roles.drop_first()[k].0 != id by {
            assert(roles.drop_first()[k] == roles[k + 1]);
        }
        lemma_first_with_id(roles.drop_first(), id, i - 1);
    }
}

/// Plans how a member takes on the colour role `target`, going through the
/// member's roles in order: meeting `target` ends the plan as already applied;
/// each colour role met before it is taken away.
pub fn plan_color(member_roles: &Vec<RoleInfo>, target: u64) -> (r: ColorPlan)
    ensures
        ({
            let rv = role_values(member_roles@);
            let k = first_with_id(rv, target);
            &&& r.already_applied == (k < rv.len())
            &&& r.remove@ == color_role_ids(rv.take(k))
        }),
{
    let ghost rv = role_values(member_roles@);
    let mut remove: Vec<u64> = Vec::new();
    let mut i: usize = 0;
    while i < member_roles.len()
        invariant
            i <= member_roles.len(),
            rv == role_values(member_roles@),
            forall|k: int| 0 <= k < i ==> #[trigger] rv[k].0 != target,
            remove@ == color_role_ids(rv.take(i as int)),
        decreases member_roles.len() - i,
    {
        let role = &member_roles[i];
        assert(rv[i as int] == (role.id, role.name@));
        if role.id == target {
            proof {
                lemma_first_with_id(rv, target, i as int);
            }
            return ColorPlan { remove, already_applied: true };
        }
        assert(rv.take(i as int + 1).drop_last() == rv.take(i as int));
        if is_color_role(role.name.as_str()) {
            remove.push(role.id);
        }
        i = i + 1;
    }
    proof {
        lemma_first_with_id(rv, target, i as int);
        assert(rv.take(i as int) == rv);
    }
    ColorPlan { remove, already_applied: false }
}

/// The colour roles a member gives up when clearing them.
pub fn plan_clear(member_roles: &Vec<RoleInfo>) -> (r: Vec<u64>)
    ensures
        r@ == color_role_ids(role_values(member_roles@)),
{
    let ghost rv = role_values(member_roles@);
    let mut remove: Vec<u64> = Vec::new();
    let mut i: usize = 0;
    while i < member_roles.len()
        invariant
            i <= member_roles.len(),
            rv == role_values(member_roles@),
            remove@ == color_role_ids(rv.take(i as int)),
        decreases member_roles.len() - i,
    {
        let role = &member_roles[i];
        assert(rv[i as int] == (role.id, role.name@));
        assert(rv.take(i as int + 1).drop_last() == rv.take(i as int));
        if is_color_role(role.name.as_str()) {
            remove.push(role.id);
        }
        i = i + 1;
    }
    assert(rv.take(i as int) == rv);
    remove
}

/// How many of the server's roles are colour roles.
pub fn count_color_roles(roles: &Vec<RoleInfo>) -> (r: usize)
    ensures
        r == color_role_ids(role_values(roles@)).len(),
{
    let ghost rv = role_values(roles@);
    let mut n: usize = 0;
    let mut i: usize = 0;
    while i < roles.len()
        invariant
            i <= roles.len(),
            rv == role_values(roles@),
            n == color_role_ids(rv.take(i as int)).len(),
            n <= i,
        decreases roles.len() - i,
    {
        assert(rv[i as int] == (roles@[i as int].id, roles@[i as int].name@));
        assert(rv.take(i as int + 1).drop_last() == rv.take(i as int));
        if is_color_role(roles[i].name.as_str()) {
            n = n + 1;
        }
        i = i + 1;
    }
    assert(rv.take(i as int) == rv);
    n
}

/// Some member holds the role.
pub open spec fn role_in_use(member_roles: Seq<Seq<u64>>, id: u64) -> bool {
    exists|m: int| 0 <= m < member_roles.len() && member_roles[m].contains(id)
}

/// Whether some member holds the role.
fn in_use(members: &Vec<Vec<u64>>, id: u64) -> (r: bool)
    ensures
        r == role_in_use(members@.map_values(|m: Vec<u64>| m@), id),
{
    let ghost mv = members@.map_values(|m: Vec<u64>| m@);
    let mut m: usize = 0;
    while m < members.len()
        invariant
            m <= members.len(),
            mv == members@.map_values(|m: Vec<u64>| m@),
            forall|k: int| 0 <= k < m ==> !(#[trigger] mv[k]).contains(id),
        decreases members.len() - m,
    {
        let roles = &members[m];
        let mut j: usize = 0;
        while j < roles.len()
            invariant
                j <= roles.len(),
                m < members.len(),
                mv == members@.map_values(|m: Vec<u64>| m@),
                roles@ == members@[m as int]@,
                forall|k: int| 0 <= k < j ==> roles@[k] != id,
            decreases roles.len() - j,
        {
            if roles[j] == id {
                assert(mv[m as int] == roles@);
                assert(mv[m as int][j as int] == id);
                assert(mv[m as int].contains(id));
                return true;
            }
            j = j + 1;
        }
        assert(mv[m as int] == roles@);
        m = m + 1;
    }
    false
}

/// A role the clean-up deletes: a colour role that no integration manages and
/// that no member holds.
pub open spec fn stale(r: RoleInfo, member_roles: Seq<Seq<u64>>) -> bool {
    !r.managed && is_color_role_name(r.name@) && !role_in_use(member_roles, r.id)
}

/// The roles the clean-up deletes, in order: on a server with the anchor
/// role, every stale colour role; on any other server, none.
pub open spec fn stale_roles(roles: Seq<RoleInfo>, member_roles: Seq<Seq<u64>>) -> Seq<u64>
    decreases roles.len(),
{
    if roles.len() == 0 {
        Seq::empty()
    } else if stale(roles.last(), member_roles) {
        stale_roles(roles.drop_last(), member_roles).push(roles.last().id)
    } else {
        stale_roles(roles.drop_last(), member_roles)
    }
}

/// The colour roles the periodic clean-up deletes from a server, given its
/// roles and the roles each member holds.
pub fn cleanup_roles(roles: &Vec<RoleInfo>, members: &Vec<Vec<u64>>) -> (r: Vec<u64>)
    ensures
        (exists|i: int| 0 <= i < roles@.len() && is_anchor_name(#[trigger] roles@[i].name@))
            ==> r@ == stale_roles(roles@, members@.map_values(|m: Vec<u64>| m@)),
        (forall|i: int| 0 <= i < roles@.len() ==> !is_anchor_name(#[trigger] roles@[i].name@))
            ==> r@.len() == 0,
{
    let mut out: Vec<u64> = Vec::new();
    match find_anchor(roles) {
        None => {
            return out;
        },
        Some(_) => {},
    }
    let ghost mv = members@.map_values(|m: Vec<u64>| m@);
    let mut i: usize = 0;
    while i < roles.len()
        invariant
            i <= roles.len(),
            mv == members@.map_values(|m: Vec<u64>| m@),
            out@ == stale_roles(roles@.take(i as int), mv),
        decreases roles.len() - i,
    {
        let role = &roles[i];
        assert(roles@.take(i as int + 1).drop_last() == roles@.take(i as int));
        if !role.managed && is_color_role(role.name.as_str()) && !in_use(members, role.id) {
            out.push(role.id);
        }
        i = i + 1;
    }
    assert(roles@.take(i as int) == roles@);
    out
}

/// The clean-up runs at most once in thirty minutes per server.
pub const CLEANUP_COOLDOWN_MS: u64 = 1800000;

/// Whether the clean-up is due on a server, given how long ago (in
/// milliseconds) it last ran there, if ever.
pub fn cleanup_due(elapsed_ms: Option<u64>) -> (r: bool)
    ensures
        r == match elapsed_ms {
            None => true,
            Some(e) => e >= CLEANUP_COOLDOWN_MS,
        },
{
    match elapsed_ms {
        None => true,
        Some(e) => e >= CLEANUP_COOLDOWN_MS,
    }
}

/// How long ago (in milliseconds) a run at `last_ms` was, seen at `now_ms`:
/// never negative, as `Instant::elapsed` saturates.
pub open spec fn elapsed_since(now_ms: u64, last_ms: u64) -> u64 {
    if now_ms >= last_ms {
        (now_ms - last_ms) as u64
    } else {
        0
    }
}

/// Whether the clean-up may run on `guild` at `now_ms`, given when it last
/// ran on each server: never yet, or at least `CLEANUP_COOLDOWN_MS` ago.
pub open spec fn cleanup_allowed(runs: Map<u64, u64>, guild: u64, now_ms: u64) -> bool {
    !runs.contains_key(guild) || elapsed_since(now_ms, runs[guild]) >= CLEANUP_COOLDOWN_MS
}

/// When the clean-up last ran on each server (server id to milliseconds on
/// a monotonic clock).
pub struct CleanupSchedule {
    last_run: HashMap<u64, u64>,
}

impl View for CleanupSchedule {
    type V = Map<u64, u64>;

    /// The recorded value of each key.
    closed spec fn view(&self) -> Map<u64, u64> {
        self.last_run@
    }
}

impl CleanupSchedule {
    /// A schedule on which the clean-up has run nowhere yet.
    pub fn new() -> (s: CleanupSchedule)
        ensures
            s@ == Map::<u64, u64>::empty(),
    {
        CleanupSchedule { last_run: HashMap::new() }
    }

    /// Starts the clean-up on `guild` at `now_ms` when it is allowed there,
    /// recording the run; otherwise leaves the schedule as it is.
    pub fn try_start(&mut self, guild: u64, now_ms: u64) -> (started: bool)
        ensures
            started == cleanup_allowed(old(self)@, guild, now_ms),
            final(self)@ == if started {
                old(self)@.insert(guild, now_ms)
            } else {
                old(self)@
            },
    {
        broadcast use vstd::std_specs::hash::group_hash_axioms;

        let elapsed: Option<u64> = match self.last_run.get(&guild) {
            Some(last) => {
                if now_ms >= *last {
                    Some(now_ms - *last)
                } else {
                    Some(0)
                }
            },
            None => None,
        };
        if cleanup_due(elapsed) {
            self.last_run.insert(guild, now_ms);
            true
        } else {
            false
        }
    }
}

/// The clean-up runs at most once per cooldown on a server: right after it
/// starts there, it is refused until `CLEANUP_COOLDOWN_MS` have passed, and
/// allowed again from then on; the other servers are not affected.
pub proof fn law_cleanup_once_per_cooldown(
    runs: Map<u64, u64>,
    guild: u64,
    started_ms: u64,
    later_ms: u64,
    other: u64,
    at_ms: u64,
)
    requires
        started_ms <= later_ms,
        other != guild,
    ensures
        cleanup_allowed(runs.insert(guild, started_ms), guild, later_ms) == (later_ms - started_ms
            >= CLEANUP_COOLDOWN_MS),
        cleanup_allowed(runs.insert(guild, started_ms), other, at_ms) == cleanup_allowed(
            runs,
            other,
            at_ms,
        ),
{
}

/// The colour shown for a self colour role: `Hex: #RRGGBB`.
pub fn color_info(color: u32) -> (r: String)
    ensures
        r@ == "Hex: "@ + hex_color(color),
{
    let mut out: Vec<char> = Vec::new();
    push_str(&mut out, "Hex: ");
    push_str(&mut out, color_to_hex(color).as_str());
    string_of(&out)
}

/// How many colour roles the server has, as the help shows it.
pub fn created_roles_info(n: u64) -> (r: String)
    ensures
        r@ == "Created Roles: `"@ + decimal(n as nat) + "`"@,
{
    let mut out: Vec<char> = Vec::new();
    push_str(&mut out, "Created Roles: `");
    push_decimal(&mut out, n);
    push_str(&mut out, "`");
    string_of(&out)
}

/// The example the colour help gives, with the prefix the command was used with.
pub fn color_example(prefix: &str) -> (r: String)
    ensures
        r@ == "**With Hex Value**:```"@ + prefix@
            + "color #ADD8E6```\nRefer to the picture below for tutorial.\n"@,
{
    let mut out: Vec<char> = Vec::new();
    push_str(&mut out, "**With Hex Value**:```");
    push_str(&mut out, prefix);
    push_str(&mut out, "color #ADD8E6```\nRefer to the picture below for tutorial.\n");
    string_of(&out)
}


/// The role made for a colour is recognised as a colour role, so that
/// clearing and the clean-up take it into account.
pub proof fn law_color_role_is_color_role(color: u32)
    ensures
        is_color_role_name("M"@ + hex_color(color)),
{
    reveal_strlit("M");
    reveal_strlit("#");
    reveal_strlit("M#");
    let n = "M"@ + hex_color(color);
    assert(n[0] == 'M');
    assert(n[1] == '#');
    assert(n.subrange(0, 2) =~= "M#"@);
}

/// `x` is the id of a colour role of `s`.
pub open spec fn is_color_role_id(s: Seq<(u64, Seq<char>)>, x: u64) -> bool {
    exists|i: int| 0 <= i < s.len() && s[i].0 == x && is_color_role_name(#[trigger] s[i].1)
}

/// Each id of `color_role_ids(s)` is the id of a colour role of `s`.
pub proof fn lemma_color_role_ids(s: Seq<(u64, Seq<char>)>)
    ensures
        forall|j: int|
            0 <= j < color_role_ids(s).len() ==> is_color_role_id(s, #[trigger] color_role_ids(s)[j]),
    decreases s.len(),
{
    if s.len() > 0 {
        let prev = s.drop_last();
        lemma_color_role_ids(prev);
        let c = color_role_ids(prev);
        assert forall|j: int| 0 <= j < color_role_ids(s).len() implies is_color_role_id(
            s,
            #[trigger] color_role_ids(s)[j],
        ) by {
            if j < c.len() {
                assert(color_role_ids(s)[j] == c[j]);
                assert(is_color_role_id(prev, c[j]));
                let i = choose|i: int|
                    0 <= i < prev.len() && prev[i].0 == c[j] && is_color_role_name(prev[i].1);
                assert(s[i] == prev[i]);
            } else {
                assert(s[s.len() - 1].0 == color_role_ids(s)[j]);
            }
        }
    }
}

/// Applying a colour only takes colour roles away, and never the colour's
/// own role.
pub proof fn law_color_plan_spares_target(member_roles: Seq<(u64, Seq<char>)>, target: u64)
    ensures
        forall|j: int|
            0 <= j < color_role_ids(member_roles.take(first_with_id(member_roles, target))).len()
                ==> #[trigger] color_role_ids(
                member_roles.take(first_with_id(member_roles, target)),
            )[j] != target && is_color_role_id(
                member_roles,
                color_role_ids(member_roles.take(first_with_id(member_roles, target)))[j],
            ),
{
    let k = first_with_id(member_roles, target);
    lemma_first_with_id_bounds(member_roles, target);
    let pre = member_roles.take(k);
    lemma_color_role_ids(pre);
    assert forall|j: int| 0 <= j < color_role_ids(pre).len() implies #[trigger] color_role_ids(
        pre,
    )[j] != target && is_color_role_id(member_roles, color_role_ids(pre)[j]) by {
        assert(is_color_role_id(pre, color_role_ids(pre)[j]));
        let i = choose|i: int|
            0 <= i < pre.len() && pre[i].0 == color_role_ids(pre)[j] && is_color_role_name(
                pre[i].1,
            );
        assert(pre[i] == member_roles[i]);
    }
}

/// `first_with_id` is a position of the roles, or their number, and no role
/// before it holds the id.
proof fn lemma_first_with_id_bounds(roles: Seq<(u64, Seq<char>)>, id: u64)
    ensures
        0 <= first_with_id(roles, id) <= roles.len(),
        forall|k: int| 0 <= k < first_with_id(roles, id) ==> #[trigger] roles[k].0 != id,
    decreases roles.len(),
{
    if roles.len() > 0 && roles[0].0 != id {
        lemma_first_with_id_bounds(roles.drop_first(), id);
        assert forall|k: int| 0 <= k < first_with_id(roles, id) implies #[trigger] roles[k].0
            != id by {
            if k > 0 {
                assert(roles[k] == roles.drop_first()[k - 1]);
            }
        }
    }
}

/// `x` is the id of a role of `roles` that the clean-up may delete.
pub open spec fn is_stale_id(roles: Seq<RoleInfo>, member_roles: Seq<Seq<u64>>, x: u64) -> bool {
    exists|i: int| 0 <= i < roles.len() && roles[i].id == x && stale(#[trigger] roles[i], member_roles)
}

/// The clean-up deletes only unmanaged colour roles that no member holds.
pub proof fn law_cleanup_spares_held_roles(roles: Seq<RoleInfo>, member_roles: Seq<Seq<u64>>)
    ensures
        forall|j: int|
            0 <= j < stale_roles(roles, member_roles).len() ==> is_stale_id(
                roles,
                member_roles,
                #[trigger] stale_roles(roles, member_roles)[j],
            ),
    decreases roles.len(),
{
    if roles.len() > 0 {
        let prev = roles.drop_last();
        law_cleanup_spares_held_roles(prev, member_roles);
        let c = stale_roles(prev, member_roles);
        assert forall|j: int| 0 <= j < stale_roles(roles, member_roles).len() implies is_stale_id(
            roles,
            member_roles,
            #[trigger] stale_roles(roles, member_roles)[j],
        ) by {
            if j < c.len() {
                assert(stale_roles(roles, member_roles)[j] == c[j]);
                assert(is_stale_id(prev, member_roles, c[j]));
                let i = choose|i: int|
                    0 <= i < prev.len() && prev[i].id == c[j] && stale(prev[i], member_roles);
                assert(roles[i] == prev[i]);
            } else {
                assert(roles[roles.len() - 1].id == stale_roles(roles, member_roles)[j]);
            }
        }
    }
}

/// What the colour command answers when its server cannot be read.
pub fn server_only_message() -> (r: String)
    ensures
        r@ == "This command can only be used in a server"@,
{
    string_of(&chars_of("This command can only be used in a server"))
}


/// `x` is the id of an unmanaged colour role among `roles`.
pub open spec fn unmanaged_color_role_id(roles: Seq<RoleInfo>, x: u64) -> bool {
    exists|i: int|
        0 <= i < roles.len() && roles[i].id == x && !roles[i].managed && has_prefix(
            #[trigger] roles[i].name@,
            "M#"@,
        )
}

/// The clean-up never deletes a role that a member wears, nor one that an
/// integration manages or that is not a colour role: every role it deletes
/// is an unmanaged colour role of the server, and no member's roles hold it.
pub proof fn law_cleanup_keeps_worn_roles(roles: Seq<RoleInfo>, member_roles: Seq<Seq<u64>>)
    ensures
        forall|j: int, m: int|
            0 <= j < stale_roles(roles, member_roles).len() && 0 <= m < member_roles.len()
                ==> !(#[trigger] member_roles[m]).contains(#[trigger] stale_roles(roles, member_roles)[j]),
        forall|j: int|
            0 <= j < stale_roles(roles, member_roles).len() ==> unmanaged_color_role_id(
                roles,
                #[trigger] stale_roles(roles, member_roles)[j],
            ),
{
    law_cleanup_spares_held_roles(roles, member_roles);
    let s = stale_roles(roles, member_roles);
    assert forall|j: int, m: int|
        0 <= j < s.len() && 0 <= m < member_roles.len() implies !(#[trigger] member_roles[m]).contains(
        #[trigger] s[j],
    ) by {
        assert(is_stale_id(roles, member_roles, s[j]));
        let i = choose|i: int|
            0 <= i < roles.len() && roles[i].id == s[j] && stale(#[trigger] roles[i], member_roles);
        assert(!role_in_use(member_roles, s[j]));
    }
    assert forall|j: int| 0 <= j < s.len() implies unmanaged_color_role_id(roles, #[trigger] s[j]) by {
        assert(is_stale_id(roles, member_roles, s[j]));
        let i = choose|i: int|
            0 <= i < roles.len() && roles[i].id == s[j] && stale(#[trigger] roles[i], member_roles);
        assert(has_prefix(roles[i].name@, "M#"@));
    }
}

} // verus!
