//! Bringing due recurrences and schedules up to date when a list is opened or
//! read again. A recurring item whose period has passed since its last time is
//! open again, and its last time moves forward by whole periods; a schedule
//! whose activation date has passed is dropped; and every list with such an
//! item is marked edited.

use vstd::prelude::*;

use crate::statement::Statement;

verus! {

/// A stored recurrence: the item it belongs to, that item's list, the period
/// and the last time, in seconds.
#[derive(Debug, Clone, Copy, PartialEq, Eq)]
pub struct StoredRecurrence {
    pub id: i32,
    pub list_id: i32,
    pub period: i64,
    pub time_last: i64,
}

/// A stored schedule: the item it belongs to, that item's list, and its
/// activation date in seconds.
#[derive(Debug, Clone, Copy, PartialEq, Eq)]
pub struct StoredSchedule {
    pub id: i32,
    pub list_id: i32,
    pub activation_date: i64,
}

/// The size of `x`, without its sign.
pub open spec fn magnitude(x: int) -> int {
    if x < 0 {
        -x
    } else {
        x
    }
}

/// `a / b` rounded toward zero, as SQLite divides integers.
pub open spec fn div_toward_zero(a: int, b: int) -> int {
    if (a >= 0) == (b >= 0) {
        magnitude(a) / magnitude(b)
    } else {
        -(magnitude(a) / magnitude(b))
    }
}

/// A recurrence is due when more than its period has passed since its last
/// time.
pub open spec fn due(period: int, time_last: int, now: int) -> bool {
    now - time_last > period
}

/// The last time of a due recurrence brought forward: now for a period of
/// zero, else moved by as many whole periods as fit in the time passed.
pub open spec fn advanced(period: int, time_last: int, now: int) -> int {
    if period == 0 {
        now
    } else {
        time_last + period * div_toward_zero(now - time_last, period)
    }
}

/// The new last time of a recurrence at `now`, or `None` when it is not due.
pub fn advance(period: i64, time_last: i64, now: i64) -> (r: Option<i64>)
    ensures
        r == (if due(period as int, time_last as int, now as int) {
            Some(advanced(period as int, time_last as int, now as int) as i64)
        } else {
            None::<i64>
        }),
        r matches Some(t) ==> t == advanced(period as int, time_last as int, now as int),
{
    let d: i128 = now as i128 - time_last as i128;
    if d <= period as i128 {
        return None;
    }
    if period == 0 {
        return Some(now);
    }
    let m: u128 = if d < 0 {
        (0 - d) as u128
    } else {
        d as u128
    };
    let p: u128 = if period < 0 {
        (0 - period as i128) as u128
    } else {
        period as u128
    };
    let q: u128 = m / p;
    proof {
        vstd::arithmetic::div_mod::lemma_fundamental_div_mod(m as int, p as int);
        assert(q * p <= m) by (nonlinear_arith)
            requires
                m == p * q + m % p,
                0 <= m % p,
        ;
        let k = q * p;
        let t = if d < 0 { time_last - k } else { time_last + k };
        assert(period * div_toward_zero(d as int, period as int) == if d < 0 { -k } else { k }) by (nonlinear_arith)
            requires
                q == magnitude(d as int) / magnitude(period as int),
                p == magnitude(period as int),
                k == q * p,
                period != 0,
                d == now - time_last,
        {
            if period > 0 {
                if d < 0 {
                    assert(period * (-(q as int)) == -(q * p));
                } else {
                    assert(period * (q as int) == q * p);
                }
            } else {
                if d < 0 {
                    assert(period * (q as int) == -(q * p));
                } else {
                    assert(period * (-(q as int)) == q * p);
                }
            }
        }
    }
    let k: u128 = q * p;
    let t: i128 = if d < 0 {
        time_last as i128 - k as i128
    } else {
        time_last as i128 + k as i128
    };
    Some(t as i64)
}

/// The writes that bring one recurrence up to date at `now`.
pub open spec fn recurrence_writes(r: StoredRecurrence, now: i64) -> Seq<Statement> {
    if due(r.period as int, r.time_last as int, now as int) {
        seq![
            Statement::TouchList { list_id: r.list_id },
            Statement::ReopenItem { id: r.id },
            Statement::SetTimeLast {
                id: r.id,
                time_last: advanced(r.period as int, r.time_last as int, now as int) as i64,
            },
        ]
    } else {
        Seq::empty()
    }
}

/// The writes that drop one schedule whose activation date has passed at `now`.
pub open spec fn schedule_writes(s: StoredSchedule, now: i64) -> Seq<Statement> {
    if now - s.activation_date > 0 {
        seq![Statement::TouchList { list_id: s.list_id }, Statement::DeleteSchedule { id: s.id }]
    } else {
        Seq::empty()
    }
}

/// The writes for all recurrences, in order.
pub open spec fn recurrences_writes(rs: Seq<StoredRecurrence>, now: i64) -> Seq<Statement>
    decreases rs.len(),
{
    if rs.len() == 0 {
        Seq::empty()
    } else {
        recurrences_writes(rs.drop_last(), now) + recurrence_writes(rs.last(), now)
    }
}

/// The writes for all schedules, in order.
pub open spec fn schedules_writes(ss: Seq<StoredSchedule>, now: i64) -> Seq<Statement>
    decreases ss.len(),
{
    if ss.len() == 0 {
        Seq::empty()
    } else {
        schedules_writes(ss.drop_last(), now) + schedule_writes(ss.last(), now)
    }
}

/// The writes that bring all stored recurrences and schedules up to date at
/// `now`.
pub fn refresh(recurrences: &Vec<StoredRecurrence>, schedules: &Vec<StoredSchedule>, now: i64) -> (r: Vec<Statement>)
    ensures
        r@ == recurrences_writes(recurrences@, now) + schedules_writes(schedules@, now),
{
    let mut out: Vec<Statement> = Vec::new();
    let mut i: usize = 0;
    while i < recurrences.len()
        invariant
            i <= recurrences@.len(),
            out@ == recurrences_writes(recurrences@.take(i as int), now),
        decreases recurrences@.len() - i,
    {
        assert(recurrences@.take(i + 1).drop_last() =~= recurrences@.take(i as int));
        let rec = recurrences[i];
        match advance(rec.period, rec.time_last, now) {
            Some(t) => {
                out.push(Statement::TouchList { list_id: rec.list_id });
                out.push(Statement::ReopenItem { id: rec.id });
                out.push(Statement::SetTimeLast { id: rec.id, time_last: t });
            },
            None => {},
        }
        i += 1;
        assert(out@ =~= recurrences_writes(recurrences@.take(i as int), now));
    }
    assert(recurrences@.take(recurrences@.len() as int) =~= recurrences@);
    let ghost base = out@;
    let mut j: usize = 0;
    while j < schedules.len()
        invariant
            j <= schedules@.len(),
            base == recurrences_writes(recurrences@, now),
            out@ == base + schedules_writes(schedules@.take(j as int), now),
        decreases schedules@.len() - j,
    {
        assert(schedules@.take(j + 1).drop_last() =~= schedules@.take(j as int));
        let sched = schedules[j];
        if now as i128 - sched.activation_date as i128 > 0 {
            out.push(Statement::TouchList { list_id: sched.list_id });
            out.push(Statement::DeleteSchedule { id: sched.id });
        }
        j += 1;
        assert(out@ =~= base + schedules_writes(schedules@.take(j as int), now));
    }
    assert(schedules@.take(schedules@.len() as int) =~= schedules@);
    out
}

proof fn lemma_recurrences_writes_facts(rs: Seq<StoredRecurrence>, now: i64)
    ensures
        forall|k: int|
            0 <= k < rs.len() && due((#[trigger] rs[k]).period as int, rs[k].time_last as int, now as int) ==> {
                &&& recurrences_writes(rs, now).contains(Statement::TouchList { list_id: rs[k].list_id })
                &&& recurrences_writes(rs, now).contains(Statement::ReopenItem { id: rs[k].id })
                &&& recurrences_writes(rs, now).contains(
                    Statement::SetTimeLast {
                        id: rs[k].id,
                        time_last: advanced(rs[k].period as int, rs[k].time_last as int, now as int) as i64,
                    },
                )
            },
        forall|j: int|
            0 <= j < recurrences_writes(rs, now).len() ==> match #[trigger] recurrences_writes(rs, now)[j] {
                Statement::ReopenItem { id } => exists|k: int|
                    0 <= k < rs.len() && rs[k].id == id && due(rs[k].period as int, rs[k].time_last as int, now as int),
                Statement::SetTimeLast { id, time_last } => exists|k: int|
                    0 <= k < rs.len() && rs[k].id == id && due(rs[k].period as int, rs[k].time_last as int, now as int)
                        && time_last == advanced(rs[k].period as int, rs[k].time_last as int, now as int) as i64,
                Statement::TouchList { .. } => true,
                _ => false,
            },
    decreases rs.len(),
{
    if rs.len() > 0 {
        let prev = rs.drop_last();
        lemma_recurrences_writes_facts(prev, now);
        let w = recurrences_writes(rs, now);
        let wp = recurrences_writes(prev, now);
        let last = recurrence_writes(rs.last(), now);
        assert(w == wp + last);
        assert forall|k: int|
            0 <= k < rs.len() && due((#[trigger] rs[k]).period as int, rs[k].time_last as int, now as int) implies {
            &&& w.contains(Statement::TouchList { list_id: rs[k].list_id })
            &&& w.contains(Statement::ReopenItem { id: rs[k].id })
            &&& w.contains(
                Statement::SetTimeLast {
                    id: rs[k].id,
                    time_last: advanced(rs[k].period as int, rs[k].time_last as int, now as int) as i64,
                },
            )
        } by {
            if k < rs.len() - 1 {
                assert(prev[k] == rs[k]);
                let a = choose|a: int| 0 <= a < wp.len() && wp[a] == Statement::TouchList { list_id: rs[k].list_id };
                let b = choose|b: int| 0 <= b < wp.len() && wp[b] == Statement::ReopenItem { id: rs[k].id };
                let c = choose|c: int|
                    0 <= c < wp.len() && wp[c] == Statement::SetTimeLast {
                        id: rs[k].id,
                        time_last: advanced(rs[k].period as int, rs[k].time_last as int, now as int) as i64,
                    };
                assert(w[a] == wp[a]);
                assert(w[b] == wp[b]);
                assert(w[c] == wp[c]);
            } else {
                assert(rs[k] == rs.last());
                assert(w[wp.len() as int] == last[0]);
                assert(w[wp.len() as int + 1] == last[1]);
                assert(w[wp.len() as int + 2] == last[2]);
            }
        }
        assert forall|j: int| 0 <= j < w.len() implies match #[trigger] w[j] {
            Statement::ReopenItem { id } => exists|k: int|
                0 <= k < rs.len() && rs[k].id == id && due(rs[k].period as int, rs[k].time_last as int, now as int),
            Statement::SetTimeLast { id, time_last } => exists|k: int|
                0 <= k < rs.len() && rs[k].id == id && due(rs[k].period as int, rs[k].time_last as int, now as int)
                    && time_last == advanced(rs[k].period as int, rs[k].time_last as int, now as int) as i64,
            Statement::TouchList { .. } => true,
            _ => false,
        } by {
            if j < wp.len() {
                assert(w[j] == wp[j]);
                match wp[j] {
                    Statement::ReopenItem { id } => {
                        let k = choose|k: int|
                            0 <= k < prev.len() && prev[k].id == id && due(
                                prev[k].period as int,
                                prev[k].time_last as int,
                                now as int,
                            );
                        assert(rs[k] == prev[k]);
                    },
                    Statement::SetTimeLast { id, time_last } => {
                        let k = choose|k: int|
                            0 <= k < prev.len() && prev[k].id == id && due(
                                prev[k].period as int,
                                prev[k].time_last as int,
                                now as int,
                            ) && time_last == advanced(prev[k].period as int, prev[k].time_last as int, now as int) as i64;
                        assert(rs[k] == prev[k]);
                    },
                    _ => {},
                }
            } else {
                assert(w[j] == last[j - wp.len()]);
                let k = rs.len() - 1;
                assert(rs[k] == rs.last());
            }
        }
    }
}

proof fn lemma_schedules_writes_facts(ss: Seq<StoredSchedule>, now: i64)
    ensures
        forall|k: int|
            0 <= k < ss.len() && now - (#[trigger] ss[k]).activation_date > 0 ==> {
                &&& schedules_writes(ss, now).contains(Statement::TouchList { list_id: ss[k].list_id })
                &&& schedules_writes(ss, now).contains(Statement::DeleteSchedule { id: ss[k].id })
            },
        forall|j: int|
            0 <= j < schedules_writes(ss, now).len() ==> match #[trigger] schedules_writes(ss, now)[j] {
                Statement::DeleteSchedule { id } => exists|k: int|
                    0 <= k < ss.len() && ss[k].id == id && now - ss[k].activation_date > 0,
                Statement::TouchList { .. } => true,
                _ => false,
            },
    decreases ss.len(),
{
    if ss.len() > 0 {
        let prev = ss.drop_last();
        lemma_schedules_writes_facts(prev, now);
        let w = schedules_writes(ss, now);
        let wp = schedules_writes(prev, now);
        let last = schedule_writes(ss.last(), now);
        assert(w == wp + last);
        assert forall|k: int| 0 <= k < ss.len() && now - (#[trigger] ss[k]).activation_date > 0 implies {
            &&& w.contains(Statement::TouchList { list_id: ss[k].list_id })
            &&& w.contains(Statement::DeleteSchedule { id: ss[k].id })
        } by {
            if k < ss.len() - 1 {
                assert(prev[k] == ss[k]);
                let a = choose|a: int| 0 <= a < wp.len() && wp[a] == Statement::TouchList { list_id: ss[k].list_id };
                let b = choose|b: int| 0 <= b < wp.len() && wp[b] == Statement::DeleteSchedule { id: ss[k].id };
                assert(w[a] == wp[a]);
                assert(w[b] == wp[b]);
            } else {
                assert(ss[k] == ss.last());
                assert(w[wp.len() as int] == last[0]);
                assert(w[wp.len() as int + 1] == last[1]);
            }
        }
        assert forall|j: int| 0 <= j < w.len() implies match #[trigger] w[j] {
            Statement::DeleteSchedule { id } => exists|k: int|
                0 <= k < ss.len() && ss[k].id == id && now - ss[k].activation_date > 0,
            Statement::TouchList { .. } => true,
            _ => false,
        } by {
            if j < wp.len() {
                assert(w[j] == wp[j]);
                match wp[j] {
                    Statement::DeleteSchedule { id } => {
                        let k = choose|k: int| 0 <= k < prev.len() && prev[k].id == id && now - prev[k].activation_date > 0;
                        assert(ss[k] == prev[k]);
                    },
                    _ => {},
                }
            } else {
                assert(w[j] == last[j - wp.len()]);
                let k = ss.len() - 1;
                assert(ss[k] == ss.last());
            }
        }
    }
}

/// What bringing recurrences and schedules up to date writes: every due
/// recurring item (more than its period passed since its last time) is opened
/// again, its last time is set to the advanced one, and its list is marked
/// edited; every schedule whose activation date has passed is dropped and its
/// list marked edited; and nothing else is opened, moved or dropped.
pub proof fn lemma_refresh_covers_due(recurrences: Seq<StoredRecurrence>, schedules: Seq<StoredSchedule>, now: i64)
    ensures
        ({
            let w = recurrences_writes(recurrences, now) + schedules_writes(schedules, now);
            &&& forall|k: int|
                0 <= k < recurrences.len() && due(
                    (#[trigger] recurrences[k]).period as int,
                    recurrences[k].time_last as int,
                    now as int,
                ) ==> {
                    &&& w.contains(Statement::ReopenItem { id: recurrences[k].id })
                    &&& w.contains(
                        Statement::SetTimeLast {
                            id: recurrences[k].id,
                            time_last: advanced(
                                recurrences[k].period as int,
                                recurrences[k].time_last as int,
                                now as int,
                            ) as i64,
                        },
                    )
                    &&& w.contains(Statement::TouchList { list_id: recurrences[k].list_id })
                }
            &&& forall|k: int|
                0 <= k < schedules.len() && now - (#[trigger] schedules[k]).activation_date > 0 ==> {
                    &&& w.contains(Statement::DeleteSchedule { id: schedules[k].id })
                    &&& w.contains(Statement::TouchList { list_id: schedules[k].list_id })
                }
            &&& forall|j: int|
                0 <= j < w.len() ==> match #[trigger] w[j] {
                    Statement::ReopenItem { id } => exists|k: int|
                        0 <= k < recurrences.len() && recurrences[k].id == id && due(
                            recurrences[k].period as int,
                            recurrences[k].time_last as int,
                            now as int,
                        ),
                    Statement::SetTimeLast { id, time_last } => exists|k: int|
                        0 <= k < recurrences.len() && recurrences[k].id == id && due(
                            recurrences[k].period as int,
                            recurrences[k].time_last as int,
                            now as int,
                        ) && time_last == advanced(
                            recurrences[k].period as int,
                            recurrences[k].time_last as int,
                            now as int,
                        ) as i64,
                    Statement::DeleteSchedule { id } => exists|k: int|
                        0 <= k < schedules.len() && schedules[k].id == id && now - schedules[k].activation_date > 0,
                    Statement::TouchList { .. } => true,
                    _ => false,
                }
        }),
{
    lemma_recurrences_writes_facts(recurrences, now);
    lemma_schedules_writes_facts(schedules, now);
    let wr = recurrences_writes(recurrences, now);
    let ws = schedules_writes(schedules, now);
    let w = wr + ws;
    assert forall|k: int|
        0 <= k < recurrences.len() && due(
            (#[trigger] recurrences[k]).period as int,
            recurrences[k].time_last as int,
            now as int,
        ) implies {
        &&& w.contains(Statement::ReopenItem { id: recurrences[k].id })
        &&& w.contains(
            Statement::SetTimeLast {
                id: recurrences[k].id,
                time_last: advanced(recurrences[k].period as int, recurrences[k].time_last as int, now as int) as i64,
            },
        )
        &&& w.contains(Statement::TouchList { list_id: recurrences[k].list_id })
    } by {
        let a = choose|a: int| 0 <= a < wr.len() && wr[a] == Statement::ReopenItem { id: recurrences[k].id };
        let b = choose|b: int|
            0 <= b < wr.len() && wr[b] == Statement::SetTimeLast {
                id: recurrences[k].id,
                time_last: advanced(recurrences[k].period as int, recurrences[k].time_last as int, now as int) as i64,
            };
        let c = choose|c: int| 0 <= c < wr.len() && wr[c] == Statement::TouchList { list_id: recurrences[k].list_id };
        assert(w[a] == wr[a]);
        assert(w[b] == wr[b]);
        assert(w[c] == wr[c]);
    }
    assert forall|k: int| 0 <= k < schedules.len() && now - (#[trigger] schedules[k]).activation_date > 0 implies {
        &&& w.contains(Statement::DeleteSchedule { id: schedules[k].id })
        &&& w.contains(Statement::TouchList { list_id: schedules[k].list_id })
    } by {
        let a = choose|a: int| 0 <= a < ws.len() && ws[a] == Statement::DeleteSchedule { id: schedules[k].id };
        let c = choose|c: int| 0 <= c < ws.len() && ws[c] == Statement::TouchList { list_id: schedules[k].list_id };
        assert(w[wr.len() + a] == ws[a]);
        assert(w[wr.len() + c] == ws[c]);
    }
    assert forall|j: int| 0 <= j < w.len() implies match #[trigger] w[j] {
        Statement::ReopenItem { id } => exists|k: int|
            0 <= k < recurrences.len() && recurrences[k].id == id && due(
                recurrences[k].period as int,
                recurrences[k].time_last as int,
                now as int,
            ),
        Statement::SetTimeLast { id, time_last } => exists|k: int|
            0 <= k < recurrences.len() && recurrences[k].id == id && due(
                recurrences[k].period as int,
                recurrences[k].time_last as int,
                now as int,
            ) && time_last == advanced(recurrences[k].period as int, recurrences[k].time_last as int, now as int) as i64,
        Statement::DeleteSchedule { id } => exists|k: int|
            0 <= k < schedules.len() && schedules[k].id == id && now - schedules[k].activation_date > 0,
        Statement::TouchList { .. } => true,
        _ => false,
    } by {
        if j < wr.len() {
            assert(w[j] == wr[j]);
        } else {
            assert(w[j] == ws[j - wr.len()]);
        }
    }
}

/// Where a due recurrence's last time goes. With a period of zero it goes to
/// now. Otherwise it moves from the old last time toward now by a whole number
/// of periods, never past now, and ends less than one period short of now; so
/// for a positive period it lands on the last time a whole number of periods
/// after the old one that is not after now, and it does move. The result
/// always fits in `i64`.
pub proof fn lemma_advanced_whole_periods(period: i64, time_last: i64, now: i64)
    requires
        due(period as int, time_last as int, now as int),
    ensures
        ({
            let t = advanced(period as int, time_last as int, now as int);
            &&& period == 0 ==> t == now
            &&& period != 0 ==> {
                &&& (t - time_last) % magnitude(period as int) == 0
                &&& magnitude(now - t) < magnitude(period as int)
                &&& (time_last <= t <= now || now <= t <= time_last)
            }
            &&& period > 0 ==> time_last < t <= now && now - t < period
            &&& i64::MIN <= t <= i64::MAX
        }),
{
    if period != 0 {
        let d: int = now - time_last;
        let m = magnitude(d);
        let p = magnitude(period as int);
        let q = m / p;
        vstd::arithmetic::div_mod::lemma_fundamental_div_mod(m, p);
        vstd::arithmetic::div_mod::lemma_mod_pos_bound(m, p);
        assert(q * p <= m) by (nonlinear_arith)
            requires
                m == p * q + m % p,
                0 <= m % p,
        ;
        assert(0 <= q) by (nonlinear_arith)
            requires
                q == m / p,
                m >= 0,
                p > 0,
        ;
        let k = q * p;
        assert(0 <= k) by (nonlinear_arith)
            requires
                k == q * p,
                q >= 0,
                p > 0,
        ;
        assert(period * div_toward_zero(d, period as int) == if d < 0 { -k } else { k }) by (nonlinear_arith)
            requires
                q == magnitude(d) / magnitude(period as int),
                p == magnitude(period as int),
                k == q * p,
                period != 0,
        {
            if period > 0 {
                if d < 0 {
                    assert(period * (-q) == -(q * p));
                } else {
                    assert(period * q == q * p);
                }
            } else {
                if d < 0 {
                    assert(period * q == -(q * p));
                } else {
                    assert(period * (-q) == q * p);
                }
            }
        }
        let t = advanced(period as int, time_last as int, now as int);
        if d < 0 {
            assert(t - time_last == (-q) * p) by (nonlinear_arith)
                requires
                    t - time_last == -k,
                    k == q * p,
            ;
            vstd::arithmetic::div_mod::lemma_mod_multiples_basic(-q, p);
        } else {
            vstd::arithmetic::div_mod::lemma_mod_multiples_basic(q, p);
        }
        if period > 0 {
            assert(d > period);
            assert(q >= 1) by (nonlinear_arith)
                requires
                    m == p * q + m % p,
                    m % p < p,
                    m > p,
                    p > 0,
            ;
            assert(k >= p) by (nonlinear_arith)
                requires
                    k == q * p,
                    q >= 1,
                    p > 0,
            ;
        }
    }
}

} // verus!
