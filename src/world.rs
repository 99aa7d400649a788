//! One simulation step over a whole body collection, and the world state that
//! the step advances.
use vstd::prelude::*;
use crate::ball::{advance, enclosure_wf, next_position, Ball, SimError};
use crate::collision::{
    apply_push, push_from, push_of, push_fits, push_on, pushed, in_contact, Push, KICK_LIMIT,
    SHIFT_LIMIT,
};
use crate::numeric::{tdiv, DAMPING_SCALE, LIMIT, TIME_SCALE};

verus! {

/// The push that changes nothing.
pub open spec fn no_push() -> Push {
    Push { dp: seq![0, 0], dv: seq![0, 0] }
}

/// The two pushes combined.
pub open spec fn plus(p: Push, q: Push) -> Push {
    Push { dp: seq![p.dp[0] + q.dp[0], p.dp[1] + q.dp[1]], dv: seq![p.dv[0] + q.dv[0], p.dv[1] + q.dv[1]] }
}

/// The sum of the pushes that the first `n` bodies of `snap` apply to body `k`.
pub open spec fn total_push(snap: Seq<Ball>, k: int, n: int, damping: int) -> Push
    decreases n,
{
    if n <= 0 {
        no_push()
    } else {
        plus(total_push(snap, k, n - 1, damping), push_on(snap[k], snap[n - 1], damping))
    }
}

/// Every body can move for `dt` milliseconds and stay in range.
pub open spec fn all_advance(bodies: Seq<Ball>, dt: int) -> bool {
    forall|i: int| 0 <= i < bodies.len() ==> #[trigger] bodies[i].can_advance(dt)
}

/// The snapshot that the pairwise stage reads: every body integrated, then
/// checked against the enclosure.
pub open spec fn prepared(bodies: Seq<Ball>, enclosure: [i64; 2], dt: int) -> Seq<Ball> {
    bodies.map_values(|b: Ball| b.advanced(dt).bounced(enclosure))
}

/// Every body of the snapshot stays in range once all its contacts are applied.
pub open spec fn all_settle(snap: Seq<Ball>, damping: int) -> bool {
    forall|k: int|
        0 <= k < snap.len() ==> push_fits(
            snap[k],
            #[trigger] total_push(snap, k, snap.len() as int, damping),
        )
}

/// Body `k` of the snapshot with all its contacts applied.
pub open spec fn settled(snap: Seq<Ball>, k: int, damping: int) -> Ball {
    pushed(snap[k], total_push(snap, k, snap.len() as int, damping))
}

/// The outcome of one step: integrate, check the enclosure, then resolve every
/// pair against the same snapshot and add up the corrections per body.
///
/// Body `k` receives from the pair `{k, j}` the push that resolving that pair
/// gives it in either order (see `lemma_collision_symmetric`), so the sums are
/// those of resolving every pair `i < j` and adding each pair's deltas.
pub open spec fn step_result(bodies: Seq<Ball>, enclosure: [i64; 2], damping: int, dt: int) -> Result<
    Seq<Ball>,
    SimError,
> {
    if dt < 0 {
        Err(SimError::InvalidTimestep)
    } else if !all_advance(bodies, dt) {
        Err(SimError::OutOfRange)
    } else {
        let snap = prepared(bodies, enclosure, dt);
        if all_settle(snap, damping) {
            Ok(Seq::new(snap.len(), |k: int| settled(snap, k, damping)))
        } else {
            Err(SimError::OutOfRange)
        }
    }
}

/// A valid configuration: well-formed bodies, a valid enclosure and a damping
/// coefficient within `[0, DAMPING_SCALE]`.
pub open spec fn config_wf(bodies: Seq<Ball>, enclosure: [i64; 2], damping: int) -> bool {
    &&& forall|i: int| 0 <= i < bodies.len() ==> #[trigger] bodies[i].wf()
    &&& enclosure_wf(enclosure)
    &&& 0 <= damping <= DAMPING_SCALE
}

/// Advances the bodies by one step of `dt` milliseconds.
pub fn step(bodies: &Vec<Ball>, enclosure: [i64; 2], damping: i64, dt: i64) -> (r: Result<
    Vec<Ball>,
    SimError,
>)
    requires
        config_wf(bodies@, enclosure, damping as int),
    ensures
        r is Ok <==> step_result(bodies@, enclosure, damping as int, dt as int) is Ok,
        r matches Ok(v) ==> step_result(bodies@, enclosure, damping as int, dt as int) == Ok::<
            Seq<Ball>,
            SimError,
        >(v@) && config_wf(v@, enclosure, damping as int),
        r matches Err(e) ==> step_result(bodies@, enclosure, damping as int, dt as int) == Err::<
            Seq<Ball>,
            SimError,
        >(e),
{
    if dt < 0 {
        return Err(SimError::InvalidTimestep);
    }
    let n = bodies.len();
    let mut snap: Vec<Ball> = Vec::new();
    let mut i: usize = 0;
    while i < n
        invariant
            n == bodies.len(),
            config_wf(bodies@, enclosure, damping as int),
            dt >= 0,
            i <= n,
            snap.len() == i,
            forall|m: int| 0 <= m < i ==> #[trigger] bodies[m].can_advance(dt as int),
            forall|m: int|
                0 <= m < i ==> #[trigger] snap[m] == bodies[m].advanced(dt as int).bounced(
                    enclosure,
                ) && snap[m].wf(),
        decreases n - i,
    {
        let b = &bodies[i];
        assert(b.wf());
        match next_position(b, dt) {
            Some(p) => {
                let moved = Ball { position: p, ..*b };
                snap.push(moved.handle_boundary_colision(enclosure));
            },
            None => {
                return Err(SimError::OutOfRange);
            },
        }
        i = i + 1;
    }
    assert(snap@ =~= prepared(bodies@, enclosure, dt as int));
    assert(all_advance(bodies@, dt as int));
    let mut out: Vec<Ball> = Vec::new();
    let mut k: usize = 0;
    while k < n
        invariant
            n == bodies.len(),
            n == snap.len(),
            snap@ == prepared(bodies@, enclosure, dt as int),
            dt >= 0,
            all_advance(bodies@, dt as int),
            0 <= damping <= DAMPING_SCALE,
            forall|m: int| 0 <= m < n ==> #[trigger] snap[m].wf(),
            k <= n,
            out.len() == k,
            forall|m: int|
                0 <= m < k ==> push_fits(
                    snap[m],
                    #[trigger] total_push(snap@, m, n as int, damping as int),
                ),
            forall|m: int|
                0 <= m < k ==> #[trigger] out[m] == settled(snap@, m, damping as int) && out[m].wf(),
        decreases n - k,
    {
        let (dp, dv) = contacts_on(&snap, k, damping);
        match apply_push(&snap[k], dp, dv) {
            Some(b) => {
                out.push(b);
            },
            None => {
                assert(!all_settle(snap@, damping as int));
                return Err(SimError::OutOfRange);
            },
        }
        k = k + 1;
    }
    proof {
        let s = Seq::new(snap@.len(), |m: int| settled(snap@, m, damping as int));
        assert(out@ =~= s);
    }
    Ok(out)
}

/// The sum of the pushes that every body of `snap` applies to body `k`.
fn contacts_on(snap: &Vec<Ball>, k: usize, damping: i64) -> (r: ([i128; 2], [i128; 2]))
    requires
        forall|m: int| 0 <= m < snap.len() ==> #[trigger] snap[m].wf(),
        k < snap.len(),
        0 <= damping <= DAMPING_SCALE,
    ensures
        push_of(r.0, r.1) == total_push(snap@, k as int, snap.len() as int, damping as int),
        -0x10000000000000000000000000000000 <= r.0[0] <= 0x10000000000000000000000000000000,
        -0x10000000000000000000000000000000 <= r.0[1] <= 0x10000000000000000000000000000000,
        -0x10000000000000000000000000000000 <= r.1[0] <= 0x10000000000000000000000000000000,
        -0x10000000000000000000000000000000 <= r.1[1] <= 0x10000000000000000000000000000000,
{
    let n = snap.len();
    let mut dp: [i128; 2] = [0, 0];
    let mut dv: [i128; 2] = [0, 0];
    let mut j: usize = 0;
    while j < n
        invariant
            n == snap.len(),
            forall|m: int| 0 <= m < n ==> #[trigger] snap[m].wf(),
            k < n,
            0 <= damping <= DAMPING_SCALE,
            j <= n,
            push_of(dp, dv) == total_push(snap@, k as int, j as int, damping as int),
            -j * SHIFT_LIMIT <= dp[0] <= j * SHIFT_LIMIT,
            -j * SHIFT_LIMIT <= dp[1] <= j * SHIFT_LIMIT,
            -j * KICK_LIMIT <= dv[0] <= j * KICK_LIMIT,
            -j * KICK_LIMIT <= dv[1] <= j * KICK_LIMIT,
        decreases n - j,
    {
        proof {
            assert(j * KICK_LIMIT <= 0x10000000000000000000000000 && j * SHIFT_LIMIT
                <= 0x10000000000000000000000000) by (nonlinear_arith)
                requires
                    0 <= j < 0x10000000000000000,
            ;
        }
        let (p, v) = push_from(&snap[k], &snap[j], damping);
        dp = [dp[0] + p[0], dp[1] + p[1]];
        dv = [dv[0] + v[0], dv[1] + v[1]];
        proof {
            assert(push_of(dp, dv) =~= total_push(snap@, k as int, j + 1, damping as int));
        }
        j = j + 1;
    }
    proof {
        assert(n * KICK_LIMIT <= 0x10000000000000000000000000 && n * SHIFT_LIMIT
            <= 0x10000000000000000000000000) by (nonlinear_arith)
            requires
                0 <= n <= 0x10000000000000000,
        ;
    }
    (dp, dv)
}

/// The simulation world: the bodies, in a stable order that identifies them
/// across steps, the enclosure extents and the damping coefficient in thousandths.
pub struct App {
    pub bodies: Vec<Ball>,
    pub enclosure: [i64; 2],
    pub damping: i64,
}

impl App {
    pub open spec fn wf(&self) -> bool {
        config_wf(self.bodies@, self.enclosure, self.damping as int)
    }

    /// A world with the given configuration, or `InvalidConfig` when a body, the
    /// enclosure or the damping coefficient is invalid.
    pub fn new(bodies: Vec<Ball>, enclosure: [i64; 2], damping: i64) -> (r: Result<App, SimError>)
        ensures
            r is Ok <==> config_wf(bodies@, enclosure, damping as int),
            r matches Ok(app) ==> app.bodies@ == bodies@ && app.enclosure == enclosure
                && app.damping == damping,
            r matches Err(e) ==> e == SimError::InvalidConfig,
    {
        if !(0 < enclosure[0] && enclosure[0] <= LIMIT && 0 < enclosure[1] && enclosure[1] <= LIMIT) {
            return Err(SimError::InvalidConfig);
        }
        if !(0 <= damping && damping <= DAMPING_SCALE) {
            return Err(SimError::InvalidConfig);
        }
        let mut i: usize = 0;
        while i < bodies.len()
            invariant
                i <= bodies.len(),
                forall|m: int| 0 <= m < i ==> #[trigger] bodies[m].wf(),
            decreases bodies.len() - i,
        {
            if !bodies[i].is_valid() {
                return Err(SimError::InvalidConfig);
            }
            i = i + 1;
        }
        Ok(App { bodies, enclosure, damping })
    }

    /// Advances the world by one step of `dt` milliseconds. On an error the world
    /// is left as it was.
    pub fn update(&mut self, dt: i64) -> (r: Result<(), SimError>)
        requires
            old(self).wf(),
        ensures
            final(self).wf(),
            final(self).enclosure == old(self).enclosure,
            final(self).damping == old(self).damping,
            r is Ok <==> step_result(
                old(self).bodies@,
                old(self).enclosure,
                old(self).damping as int,
                dt as int,
            ) is Ok,
            r is Ok ==> step_result(
                old(self).bodies@,
                old(self).enclosure,
                old(self).damping as int,
                dt as int,
            ) == Ok::<Seq<Ball>, SimError>(final(self).bodies@),
            r matches Err(e) ==> step_result(
                old(self).bodies@,
                old(self).enclosure,
                old(self).damping as int,
                dt as int,
            ) == Err::<Seq<Ball>, SimError>(e) && final(self).bodies@ == old(self).bodies@,
    {
        match step(&self.bodies, self.enclosure, self.damping, dt) {
            Ok(next) => {
                self.bodies = next;
                Ok(())
            },
            Err(e) => Err(e),
        }
    }
}

/// With a zero time step every body can be integrated and keeps its position.
pub proof fn lemma_zero_dt_keeps_positions(bodies: Seq<Ball>, enclosure: [i64; 2])
    requires
        forall|i: int| 0 <= i < bodies.len() ==> #[trigger] bodies[i].wf(),
    ensures
        all_advance(bodies, 0),
        forall|i: int|
            0 <= i < bodies.len() ==> #[trigger] prepared(bodies, enclosure, 0)[i].position
                == bodies[i].position,
{
    assert forall|i: int| 0 <= i < bodies.len() implies #[trigger] prepared(bodies, enclosure, 0)[i].position
        == bodies[i].position by {
        let b = bodies[i];
        assert(b.advanced(0).position =~= b.position);
    }
    assert forall|i: int| 0 <= i < bodies.len() implies #[trigger] bodies[i].can_advance(0) by {
        let b = bodies[i];
        assert(tdiv(0, TIME_SCALE as int) == 0);
        assert(b.wf());
        assert(advance(b.position[0] as int, b.velocity[0] as int, 0) == b.position[0]);
        assert(advance(b.position[1] as int, b.velocity[1] as int, 0) == b.position[1]);
    }
}

/// A body in contact with no other body of the snapshot leaves the pairwise
/// stage with its position and velocity unchanged.
pub proof fn lemma_isolated_body_unchanged(snap: Seq<Ball>, k: int, damping: int)
    requires
        0 <= k < snap.len(),
        snap[k].wf(),
        forall|j: int| 0 <= j < snap.len() ==> !in_contact(snap[k], #[trigger] snap[j]),
    ensures
        total_push(snap, k, snap.len() as int, damping) == no_push(),
        push_fits(snap[k], total_push(snap, k, snap.len() as int, damping)),
        settled(snap, k, damping) == snap[k],
{
    lemma_no_contacts_no_push(snap, k, snap.len() as int, damping);
    let b = snap[k];
    assert(settled(snap, k, damping).position =~= b.position);
    assert(settled(snap, k, damping).velocity =~= b.velocity);
}

proof fn lemma_no_contacts_no_push(snap: Seq<Ball>, k: int, n: int, damping: int)
    requires
        0 <= n <= snap.len(),
        0 <= k < snap.len(),
        forall|j: int| 0 <= j < snap.len() ==> !in_contact(snap[k], #[trigger] snap[j]),
    ensures
        total_push(snap, k, n, damping) == no_push(),
    decreases n,
{
    if n > 0 {
        lemma_no_contacts_no_push(snap, k, n - 1, damping);
        assert(!in_contact(snap[k], snap[n - 1]));
        assert(total_push(snap, k, n, damping).dp =~= no_push().dp);
        assert(total_push(snap, k, n, damping).dv =~= no_push().dv);
    }
}

} // verus!
