//! The security boundary: every privileged operation is gated by a
//! time-bound grant. No permission lasts forever; callers pass in the
//! current time (in seconds) rather than this module reading a clock, and
//! an expired grant reads as absent.

use vstd::prelude::*;

verus! {

/// A privileged operation.
#[derive(Clone, Copy, Debug, PartialEq, Eq, Structural, Hash)]
pub enum Permission {
    ScreenCapture,
    ScreenRecording,
    InputInjection,
    ClipboardAccess,
    WindowInspection,
    GlobalShortcuts,
    DisplayConfiguration,
    RemoteDisplay,
    AccessibilityPrivileges,
}

/// How sensitive a grant is; decides how long it lasts.
#[derive(Clone, Copy, Debug, PartialEq, Eq, Structural)]
pub enum PermissionTier {
    Low,
    Medium,
    High,
    Critical,
}

/// How long a grant of tier `t` lasts, in seconds: an hour, a day, two
/// hours, half an hour.
pub open spec fn tier_duration(t: PermissionTier) -> u64 {
    match t {
        PermissionTier::Low => 3600,
        PermissionTier::Medium => 86400,
        PermissionTier::High => 7200,
        PermissionTier::Critical => 1800,
    }
}

impl PermissionTier {
    /// How long a grant of this tier lasts, in seconds.
    pub fn duration_secs(self) -> (d: u64)
        ensures
            d == tier_duration(self),
    {
        match self {
            PermissionTier::Low => 60 * 60,
            PermissionTier::Medium => 24 * 60 * 60,
            PermissionTier::High => 2 * 60 * 60,
            PermissionTier::Critical => 30 * 60,
        }
    }
}

/// A permission granted to an application until `expires_at`.
#[derive(Clone, Debug)]
pub struct Grant {
    pub app_id: String,
    pub permission: Permission,
    pub tier: PermissionTier,
    pub granted_at: u64,
    pub expires_at: u64,
}

/// What a grant says, as plain values.
pub struct GrantView {
    pub app_id: Seq<char>,
    pub permission: Permission,
    pub tier: PermissionTier,
    pub granted_at: u64,
    pub expires_at: u64,
}

impl Grant {
    /// What the grant says.
    pub open spec fn view(&self) -> GrantView {
        GrantView {
            app_id: self.app_id@,
            permission: self.permission,
            tier: self.tier,
            granted_at: self.granted_at,
            expires_at: self.expires_at,
        }
    }
}

/// Some grant of `s` is for `app` and `permission`.
pub open spec fn has_grant(s: Seq<GrantView>, app: Seq<char>, permission: Permission) -> bool {
    exists|i: int| 0 <= i < s.len() && (#[trigger] s[i]).app_id == app && s[i].permission == permission
}

/// The position of the grant of `s` for `app` and `permission` (meaningful
/// when `has_grant(s, app, permission)`).
pub open spec fn grant_index(s: Seq<GrantView>, app: Seq<char>, permission: Permission) -> int {
    choose|i: int| 0 <= i < s.len() && (#[trigger] s[i]).app_id == app && s[i].permission == permission
}

/// No two grants of `s` are for the same application and permission.
pub open spec fn one_grant_per_key(s: Seq<GrantView>) -> bool {
    forall|i: int, j: int|
        0 <= i < s.len() && 0 <= j < s.len() && i != j ==> !((#[trigger] s[i]).app_id == (#[trigger] s[j]).app_id
            && s[i].permission == s[j].permission)
}

/// At time `now`, `app` holds `permission`: there is a grant for it that
/// has not expired.
pub open spec fn allowed(s: Seq<GrantView>, app: Seq<char>, permission: Permission, now: u64) -> bool {
    has_grant(s, app, permission) && now < s[grant_index(s, app, permission)].expires_at
}

/// The grant of `permission` to `app` at time `now` in tier `tier`.
pub open spec fn new_grant(app: Seq<char>, permission: Permission, tier: PermissionTier, now: u64) -> GrantView {
    GrantView {
        app_id: app,
        permission,
        tier,
        granted_at: now,
        expires_at: (now + tier_duration(tier)) as u64,
    }
}

/// `s` after granting `permission` to `app` at time `now` in tier `tier`:
/// the new grant replaces the old one for the same application and
/// permission, if any, or is added last.
pub open spec fn after_grant(s: Seq<GrantView>, app: Seq<char>, permission: Permission, tier: PermissionTier, now: u64) -> Seq<GrantView> {
    if has_grant(s, app, permission) {
        s.update(grant_index(s, app, permission), new_grant(app, permission, tier, now))
    } else {
        s.push(new_grant(app, permission, tier, now))
    }
}

/// `s` after revoking `permission` from `app`.
pub open spec fn after_revoke(s: Seq<GrantView>, app: Seq<char>, permission: Permission) -> Seq<GrantView> {
    if has_grant(s, app, permission) {
        s.remove(grant_index(s, app, permission))
    } else {
        s
    }
}

/// The grants of `s` still in force at time `now`, in order.
pub open spec fn unexpired(s: Seq<GrantView>, now: u64) -> Seq<GrantView> {
    s.filter(|g: GrantView| now < g.expires_at)
}

/// The views of the grants in `s`.
pub open spec fn grant_views(s: Seq<Grant>) -> Seq<GrantView> {
    s.map_values(|g: Grant| g.view())
}

/// The views of the grants that `s` refers to.
pub open spec fn grant_ref_views(s: Seq<&Grant>) -> Seq<GrantView> {
    s.map_values(|g: &Grant| g.view())
}

/// The grants in force, one per application and permission.
pub struct PermissionManager {
    grants: Vec<Grant>,
}

impl PermissionManager {
    /// The grants, in the order they were first made.
    pub closed spec fn view(&self) -> Seq<GrantView> {
        grant_views(self.grants@)
    }

    /// At most one grant per application and permission.
    pub open spec fn wf(&self) -> bool {
        one_grant_per_key(self@)
    }

    /// A manager with no grant.
    pub fn new() -> (m: PermissionManager)
        ensures
            m.wf(),
            m@ == Seq::<GrantView>::empty(),
    {
        PermissionManager { grants: Vec::new() }
    }

    /// The position of the grant for `app` and `permission`.
    fn position(&self, app: &String, permission: Permission) -> (r: Option<usize>)
        requires
            self.wf(),
        ensures
            r is None <==> !has_grant(self@, app@, permission),
            r matches Some(i) ==> i < self@.len() && i == grant_index(self@, app@, permission),
    {
        let mut i: usize = 0;
        while i < self.grants.len()
            invariant
                i <= self@.len(),
                self@ == grant_views(self.grants@),
                one_grant_per_key(self@),
                forall|j: int| 0 <= j < i ==> !((#[trigger] self@[j]).app_id == app@ && self@[j].permission == permission),
            decreases self@.len() - i,
        {
            if self.grants[i].app_id == *app && self.grants[i].permission == permission {
                proof {
                    let k = grant_index(self@, app@, permission);
                    assert(self@[i as int].app_id == app@);
                    assert(has_grant(self@, app@, permission));
                    assert(self@[k].app_id == app@ && self@[k].permission == permission);
                    if k != i as int {
                        assert(!(self@[i as int].app_id == self@[k].app_id && self@[i as int].permission == self@[k].permission));
                    }
                }
                return Some(i);
            }
            i = i + 1;
        }
        None
    }

    /// Grants `permission` to `app_id` from time `now`, for as long as
    /// `tier` allows, replacing any grant it had for that permission.
    pub fn grant(&mut self, app_id: &str, permission: Permission, tier: PermissionTier, now: u64)
        requires
            old(self).wf(),
            now + tier_duration(tier) <= u64::MAX,
        ensures
            final(self).wf(),
            final(self)@ == after_grant(old(self)@, app_id@, permission, tier, now),
    {
        let app = app_id.to_string();
        let g = Grant {
            app_id: app_id.to_string(),
            permission,
            tier,
            granted_at: now,
            expires_at: now + tier.duration_secs(),
        };
        match self.position(&app, permission) {
            Some(i) => {
                self.grants.set(i, g);
                proof {
                    assert(self@ =~= after_grant(old(self)@, app_id@, permission, tier, now));
                }
            },
            None => {
                self.grants.push(g);
                proof {
                    assert(self@ =~= after_grant(old(self)@, app_id@, permission, tier, now));
                }
            },
        }
        proof {
            let s = self@;
            assert forall|i: int, j: int| 0 <= i < s.len() && 0 <= j < s.len() && i != j implies
                !((#[trigger] s[i]).app_id == (#[trigger] s[j]).app_id && s[i].permission == s[j].permission) by {
                let o = old(self)@;
                if i < o.len() && j < o.len() && s[i] == o[i] && s[j] == o[j] {
                } else if has_grant(o, app_id@, permission) {
                    let k = grant_index(o, app_id@, permission);
                    if i == k {
                        assert(s[j] == o[j]);
                    } else {
                        assert(s[i] == o[i]);
                    }
                } else {
                    if i == o.len() {
                        assert(s[j] == o[j]);
                    } else {
                        assert(s[i] == o[i]);
                    }
                }
            }
        }
    }

    /// Revokes `permission` from `app_id`, at once.
    pub fn revoke(&mut self, app_id: &str, permission: Permission)
        requires
            old(self).wf(),
        ensures
            final(self).wf(),
            final(self)@ == after_revoke(old(self)@, app_id@, permission),
    {
        let app = app_id.to_string();
        match self.position(&app, permission) {
            Some(i) => {
                self.grants.remove(i);
                proof {
                    let o = old(self)@;
                    let s = self@;
                    assert(s =~= o.remove(i as int));
                    assert forall|a: int, b: int| 0 <= a < s.len() && 0 <= b < s.len() && a != b implies
                        !((#[trigger] s[a]).app_id == (#[trigger] s[b]).app_id && s[a].permission == s[b].permission) by {
                        let a0 = if a < i { a } else { a + 1 };
                        let b0 = if b < i { b } else { b + 1 };
                        assert(s[a] == o[a0] && s[b] == o[b0]);
                    }
                }
            },
            None => {},
        }
    }

    /// True when `app_id` holds `permission` at time `now`; an expired
    /// grant reads as absent.
    pub fn check(&self, app_id: &str, permission: Permission, now: u64) -> (b: bool)
        requires
            self.wf(),
        ensures
            b == allowed(self@, app_id@, permission, now),
    {
        let app = app_id.to_string();
        match self.position(&app, permission) {
            Some(i) => now < self.grants[i].expires_at,
            None => false,
        }
    }

    /// The grants in force at time `now`, in order.
    pub fn active_grants(&self, now: u64) -> (r: Vec<&Grant>)
        requires
            self.wf(),
        ensures
            grant_ref_views(r@) == unexpired(self@, now),
    {
        let mut out: Vec<&Grant> = Vec::new();
        let mut i: usize = 0;
        proof {
            reveal_with_fuel(Seq::<_>::filter, 1);
            assert(self@.take(0) =~= Seq::<GrantView>::empty());
            assert(grant_ref_views(out@) =~= Seq::<GrantView>::empty());
        }
        while i < self.grants.len()
            invariant
                i <= self@.len(),
                self@ == grant_views(self.grants@),
                grant_ref_views(out@) == unexpired(self@.take(i as int), now),
            decreases self@.len() - i,
        {
            let g = &self.grants[i];
            proof {
                reveal_with_fuel(Seq::<_>::filter, 1);
                assert(self@.take(i + 1).drop_last() =~= self@.take(i as int));
                assert(self@.take(i + 1).last() == g.view());
            }
            if now < g.expires_at {
                proof {
                    assert(grant_ref_views(out@.push(g)) =~= grant_ref_views(out@).push(g.view()));
                }
                out.push(g);
            }
            i = i + 1;
        }
        proof {
            assert(self@.take(self@.len() as int) =~= self@);
        }
        out
    }

    /// Drops the grants that have expired at time `now`. Checking never
    /// does this by itself, so read-only queries never change state.
    pub fn prune_expired(&mut self, now: u64)
        requires
            old(self).wf(),
        ensures
            final(self).wf(),
            final(self)@ == unexpired(old(self)@, now),
    {
        let ghost orig = self@;
        let mut i: usize = 0;
        let ghost mut j: int = 0;
        proof {
            reveal_with_fuel(Seq::<_>::filter, 1);
            assert(self@.take(0) =~= unexpired(orig.take(0), now));
            assert(self@.skip(0) =~= orig.skip(0));
        }
        while i < self.grants.len()
            invariant
                orig == old(self)@,
                self@ == grant_views(self.grants@),
                0 <= j <= orig.len(),
                i <= self@.len(),
                self@.take(i as int) == unexpired(orig.take(j), now),
                self@.skip(i as int) == orig.skip(j),
            decreases self@.len() - i,
        {
            proof {
                reveal_with_fuel(Seq::<_>::filter, 1);
                assert(self@.skip(i as int).len() == self@.len() - i);
                assert(orig.skip(j).len() == orig.len() - j);
                assert(self@[i as int] == orig[j]) by {
                    assert(self@.skip(i as int)[0] == orig.skip(j)[0]);
                }
                assert(orig.take(j + 1).drop_last() =~= orig.take(j));
            }
            if !(now < self.grants[i].expires_at) {
                let ghost before = self@;
                self.grants.remove(i);
                proof {
                    assert(self@ =~= before.remove(i as int));
                    assert(self@.take(i as int) =~= before.take(i as int));
                    assert(self@.skip(i as int) =~= before.skip(i as int).skip(1));
                    assert(orig.skip(j + 1) =~= orig.skip(j).skip(1));
                    j = j + 1;
                }
            } else {
                let ghost before = self@;
                proof {
                    assert(self@.take(i + 1) =~= before.take(i as int).push(before[i as int]));
                    assert(self@.skip(i + 1) =~= before.skip(i as int).skip(1));
                    assert(orig.skip(j + 1) =~= orig.skip(j).skip(1));
                    j = j + 1;
                }
                i = i + 1;
            }
        }
        proof {
            assert(self@.skip(i as int).len() == 0);
            assert(orig.take(j) =~= orig);
            assert(self@.take(i as int) =~= self@);
            lemma_filter_keeps_one_per_key(orig, now);
        }
    }
}

/// Keeping only some grants keeps at most one grant per key.
proof fn lemma_filter_keeps_one_per_key(s: Seq<GrantView>, now: u64)
    requires
        one_grant_per_key(s),
    ensures
        one_grant_per_key(unexpired(s, now)),
    decreases s.len(),
{
    reveal_with_fuel(Seq::<_>::filter, 1);
    if s.len() > 0 {
        let init = s.drop_last();
        assert forall|i: int, j: int| 0 <= i < init.len() && 0 <= j < init.len() && i != j implies
            !((#[trigger] init[i]).app_id == (#[trigger] init[j]).app_id && init[i].permission == init[j].permission) by {
            assert(init[i] == s[i] && init[j] == s[j]);
        }
        lemma_filter_keeps_one_per_key(init, now);
        let f = unexpired(init, now);
        let x = s.last();
        if now < x.expires_at {
            assert forall|a: int| 0 <= a < f.len() implies !((#[trigger] f[a]).app_id == x.app_id && f[a].permission == x.permission) by {
                init.lemma_filter_pred(|g: GrantView| now < g.expires_at, a);
                assert(f.contains(f[a]));
                init.lemma_filter_contains_rev(|g: GrantView| now < g.expires_at, f[a]);
                let q = choose|q: int| 0 <= q < init.len() && init[q] == f[a];
                assert(s[q] == init[q]);
                assert(s[s.len() - 1] == x);
            }
            let g = f.push(x);
            assert forall|i: int, j: int| 0 <= i < g.len() && 0 <= j < g.len() && i != j implies
                !((#[trigger] g[i]).app_id == (#[trigger] g[j]).app_id && g[i].permission == g[j].permission) by {
                if i == f.len() {
                    assert(g[j] == f[j]);
                } else if j == f.len() {
                    assert(g[i] == f[i]);
                } else {
                    assert(g[i] == f[i] && g[j] == f[j]);
                }
            }
        }
    }
}

/// A grant is in force from the moment it is made until its tier's
/// duration has elapsed, and not after.
pub proof fn lemma_grant_then_check(
    s: Seq<GrantView>,
    app: Seq<char>,
    permission: Permission,
    tier: PermissionTier,
    now: u64,
    t: u64,
)
    requires
        one_grant_per_key(s),
        now + tier_duration(tier) <= u64::MAX,
    ensures
        allowed(after_grant(s, app, permission, tier, now), app, permission, t) == (t < now + tier_duration(tier)),
{
    let a = after_grant(s, app, permission, tier, now);
    let k = if has_grant(s, app, permission) { grant_index(s, app, permission) } else { s.len() as int };
    assert(a[k] == new_grant(app, permission, tier, now));
    assert(has_grant(a, app, permission));
    let k2 = grant_index(a, app, permission);
    if k2 != k {
        if k2 < s.len() && k < s.len() {
            assert(a[k2] == s[k2]);
            assert(!(s[k2].app_id == s[k].app_id && s[k2].permission == s[k].permission));
        } else if k2 < s.len() {
            assert(a[k2] == s[k2]);
            assert(has_grant(s, app, permission));
        }
    }
}

/// A revoked permission is denied at once, at any time.
pub proof fn lemma_revoke_then_denied(s: Seq<GrantView>, app: Seq<char>, permission: Permission, t: u64)
    requires
        one_grant_per_key(s),
    ensures
        !allowed(after_revoke(s, app, permission), app, permission, t),
{
    let r = after_revoke(s, app, permission);
    if has_grant(s, app, permission) {
        let k = grant_index(s, app, permission);
        if has_grant(r, app, permission) {
            let j = choose|j: int| 0 <= j < r.len() && (#[trigger] r[j]).app_id == app && r[j].permission == permission;
            let j0 = if j < k { j } else { j + 1 };
            assert(r[j] == s[j0]);
            assert(!(s[j0].app_id == s[k].app_id && s[j0].permission == s[k].permission));
        }
    }
}

/// A grant to one application for one permission changes nothing for any
/// other application or permission.
pub proof fn lemma_grant_isolated(
    s: Seq<GrantView>,
    app: Seq<char>,
    permission: Permission,
    tier: PermissionTier,
    now: u64,
    other_app: Seq<char>,
    other_permission: Permission,
    t: u64,
)
    requires
        one_grant_per_key(s),
        other_app != app || other_permission != permission,
    ensures
        allowed(after_grant(s, app, permission, tier, now), other_app, other_permission, t)
            == allowed(s, other_app, other_permission, t),
{
    let a = after_grant(s, app, permission, tier, now);
    if has_grant(s, other_app, other_permission) {
        let k = grant_index(s, other_app, other_permission);
        assert(a[k] == s[k]);
        assert(has_grant(a, other_app, other_permission));
        let k2 = grant_index(a, other_app, other_permission);
        if k2 != k {
            if k2 < s.len() {
                assert(a[k2] == s[k2]);
                assert(!(s[k2].app_id == s[k].app_id && s[k2].permission == s[k].permission));
            }
        }
    }
    if has_grant(a, other_app, other_permission) {
        let k2 = grant_index(a, other_app, other_permission);
        if k2 < s.len() {
            assert(a[k2] == s[k2]);
        }
    }
}

/// Pruning at time `now` changes no answer for a time at or after `now`.
pub proof fn lemma_prune_keeps_answers(s: Seq<GrantView>, now: u64, app: Seq<char>, permission: Permission, t: u64)
    requires
        one_grant_per_key(s),
        now <= t,
    ensures
        allowed(unexpired(s, now), app, permission, t) == allowed(s, app, permission, t),
{
    let f = unexpired(s, now);
    let pred = |g: GrantView| now < g.expires_at;
    lemma_filter_keeps_one_per_key(s, now);
    if allowed(s, app, permission, t) {
        let k = grant_index(s, app, permission);
        s.lemma_filter_contains(pred, k);
        let j = choose|j: int| 0 <= j < f.len() && f[j] == s[k];
        assert(has_grant(f, app, permission));
        let j2 = grant_index(f, app, permission);
        if j2 != j {
            assert(!(f[j2].app_id == f[j].app_id && f[j2].permission == f[j].permission));
        }
    }
    if allowed(f, app, permission, t) {
        let j = grant_index(f, app, permission);
        assert(f.contains(f[j]));
        s.lemma_filter_contains_rev(pred, f[j]);
        let k = choose|k: int| 0 <= k < s.len() && s[k] == f[j];
        assert(has_grant(s, app, permission));
        let k2 = grant_index(s, app, permission);
        if k2 != k {
            assert(!(s[k2].app_id == s[k].app_id && s[k2].permission == s[k].permission));
        }
    }
}

/// The grants in force at `now` agree with `check` at `now`: each of them is
/// allowed, every allowed application and permission has one of them, and
/// no application and permission has two.
pub proof fn lemma_active_grants_agree_with_check(s: Seq<GrantView>, now: u64)
    requires
        one_grant_per_key(s),
    ensures
        one_grant_per_key(unexpired(s, now)),
        forall|i: int| 0 <= i < unexpired(s, now).len()
            ==> allowed(s, (#[trigger] unexpired(s, now)[i]).app_id, unexpired(s, now)[i].permission, now),
        forall|app: Seq<char>, permission: Permission|
            #[trigger] allowed(s, app, permission, now) ==> has_grant(unexpired(s, now), app, permission),
{
    let f = unexpired(s, now);
    let pred = |g: GrantView| now < g.expires_at;
    lemma_filter_keeps_one_per_key(s, now);
    assert forall|i: int| 0 <= i < f.len() implies allowed(s, (#[trigger] f[i]).app_id, f[i].permission, now) by {
        s.lemma_filter_pred(pred, i);
        assert(f.contains(f[i]));
        s.lemma_filter_contains_rev(pred, f[i]);
        let k = choose|k: int| 0 <= k < s.len() && s[k] == f[i];
        assert(has_grant(s, f[i].app_id, f[i].permission));
        let k2 = grant_index(s, f[i].app_id, f[i].permission);
        if k2 != k {
            assert(!(s[k2].app_id == s[k].app_id && s[k2].permission == s[k].permission));
        }
    }
    assert forall|app: Seq<char>, permission: Permission| #[trigger] allowed(s, app, permission, now) implies
        has_grant(f, app, permission) by {
        let k = grant_index(s, app, permission);
        s.lemma_filter_contains(pred, k);
        let j = choose|j: int| 0 <= j < f.len() && f[j] == s[k];
        assert(f[j].app_id == app && f[j].permission == permission);
    }
}

/// Pruning twice at the same time is pruning once, and after pruning at
/// `now` the grants in force at any later time are those in force before.
pub proof fn lemma_prune_idempotent(s: Seq<GrantView>, now: u64, t: u64)
    requires
        now <= t,
    ensures
        unexpired(unexpired(s, now), now) == unexpired(s, now),
        unexpired(unexpired(s, now), t) == unexpired(s, t),
    decreases s.len(),
{
    reveal_with_fuel(Seq::<_>::filter, 1);
    if s.len() > 0 {
        lemma_prune_idempotent(s.drop_last(), now, t);
        assert(s.drop_last().filter(|g: GrantView| now < g.expires_at) == unexpired(s.drop_last(), now));
        let u = unexpired(s, now);
        if now < s.last().expires_at {
            assert(u.drop_last() =~= unexpired(s.drop_last(), now));
        } else {
            assert(u =~= unexpired(s.drop_last(), now));
        }
    }
}

impl Default for PermissionManager {
    fn default() -> (m: PermissionManager)
        ensures
            m.wf(),
            m@ == Seq::<GrantView>::empty(),
    {
        PermissionManager::new()
    }
}

} // verus!
