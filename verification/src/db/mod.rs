//! The usage database: user settings, the usage tables, and the sums and maxima
//! that the stored queries compute over them.
pub mod dates;
pub mod sqltime;
pub mod queries;

use vstd::prelude::*;

verus! {

/// The user's settings.
pub struct UserSettings {
    pub daily_limit_bytes: i64,
    pub monthly_limit_bytes: i64,
    pub warning_threshold_pct: i32,
    pub danger_threshold_pct: i32,
    pub notifications_enabled: bool,
    pub sound_alerts_enabled: bool,
    pub auto_start_enabled: bool,
    pub minimize_to_tray: bool,
    pub theme: String,
    pub data_retention_days: i32,
    pub selected_adapter: String,
    pub daily_summary_enabled: bool,
    pub daily_summary_time: String,
}

/// Largest value an integer column holds (`i64::MAX`).
pub const SQL_INT_MAX: u64 = 9223372036854775807;

/// Sum of `f` over the rows.
pub open spec fn sum_by<T>(rows: Seq<T>, f: spec_fn(T) -> nat) -> nat
    decreases rows.len(),
{
    if rows.len() == 0 {
        0
    } else {
        sum_by(rows.drop_last(), f) + f(rows.last())
    }
}

/// Largest value of `f` over the rows; zero when there are none.
pub open spec fn max_by<T>(rows: Seq<T>, f: spec_fn(T) -> nat) -> nat
    decreases rows.len(),
{
    if rows.len() == 0 {
        0
    } else {
        let m = max_by(rows.drop_last(), f);
        if f(rows.last()) > m {
            f(rows.last())
        } else {
            m
        }
    }
}

pub proof fn lemma_sum_by_take<T>(rows: Seq<T>, f: spec_fn(T) -> nat, i: int)
    requires
        0 <= i < rows.len(),
    ensures
        sum_by(rows.take(i + 1), f) == sum_by(rows.take(i), f) + f(rows[i]),
        max_by(rows.take(i + 1), f) == if f(rows[i]) > max_by(rows.take(i), f) {
            f(rows[i])
        } else {
            max_by(rows.take(i), f)
        },
{
    assert(rows.take(i + 1).drop_last() =~= rows.take(i));
}

pub proof fn lemma_sum_by_push<T>(rows: Seq<T>, f: spec_fn(T) -> nat, x: T)
    ensures
        sum_by(rows.push(x), f) == sum_by(rows, f) + f(x),
        max_by(rows.push(x), f) == if f(x) > max_by(rows, f) {
            f(x)
        } else {
            max_by(rows, f)
        },
{
    assert(rows.push(x).drop_last() =~= rows);
}

pub proof fn lemma_sum_by_update<T>(rows: Seq<T>, f: spec_fn(T) -> nat, i: int, x: T)
    requires
        0 <= i < rows.len(),
    ensures
        sum_by(rows.update(i, x), f) + f(rows[i]) == sum_by(rows, f) + f(x),
    decreases rows.len(),
{
    if i == rows.len() - 1 {
        assert(rows.update(i, x).drop_last() =~= rows.drop_last());
    } else {
        lemma_sum_by_update(rows.drop_last(), f, i, x);
        assert(rows.update(i, x).drop_last() =~= rows.drop_last().update(i, x));
    }
}

pub proof fn lemma_max_by_update_grow<T>(rows: Seq<T>, f: spec_fn(T) -> nat, i: int, x: T)
    requires
        0 <= i < rows.len(),
        f(x) >= f(rows[i]),
    ensures
        max_by(rows.update(i, x), f) == if f(x) > max_by(rows, f) {
            f(x)
        } else {
            max_by(rows, f)
        },
    decreases rows.len(),
{
    lemma_max_by_ge(rows, f, i);
    if i == rows.len() - 1 {
        assert(rows.update(i, x).drop_last() =~= rows.drop_last());
        lemma_max_by_ge(rows.drop_last(), f, 0);
    } else {
        lemma_max_by_update_grow(rows.drop_last(), f, i, x);
        assert(rows.update(i, x).drop_last() =~= rows.drop_last().update(i, x));
    }
}

pub proof fn lemma_max_by_ge<T>(rows: Seq<T>, f: spec_fn(T) -> nat, i: int)
    ensures
        0 <= i < rows.len() ==> max_by(rows, f) >= f(rows[i]),
        rows.len() > 0 ==> exists|k: int| 0 <= k < rows.len() && max_by(rows, f) == f(rows[k]),
    decreases rows.len(),
{
    if rows.len() > 0 {
        let last = rows.len() - 1;
        lemma_max_by_ge(rows.drop_last(), f, i);
        if 0 <= i < last {
            assert(rows.drop_last()[i] == rows[i]);
        }
        if f(rows.last()) > max_by(rows.drop_last(), f) {
            assert(max_by(rows, f) == f(rows[last]));
        } else if rows.len() > 1 {
            let k = choose|k: int|
                0 <= k < rows.drop_last().len() && max_by(rows.drop_last(), f) == f(
                    rows.drop_last()[k],
                );
            assert(rows.drop_last()[k] == rows[k]);
            assert(max_by(rows, f) == f(rows[k]));
        } else {
            assert(max_by(rows, f) == f(rows[0]));
        }
    }
}

/// Smallest defined value of `f` over the rows, if any.
pub open spec fn opt_min_by<T>(rows: Seq<T>, f: spec_fn(T) -> Option<nat>) -> Option<nat>
    decreases rows.len(),
{
    if rows.len() == 0 {
        None
    } else {
        let m = opt_min_by(rows.drop_last(), f);
        match f(rows.last()) {
            None => m,
            Some(x) => match m {
                None => Some(x),
                Some(y) => Some(
                    if x < y {
                        x
                    } else {
                        y
                    },
                ),
            },
        }
    }
}

/// Largest defined value of `f` over the rows, if any.
pub open spec fn opt_max_by<T>(rows: Seq<T>, f: spec_fn(T) -> Option<nat>) -> Option<nat>
    decreases rows.len(),
{
    if rows.len() == 0 {
        None
    } else {
        let m = opt_max_by(rows.drop_last(), f);
        match f(rows.last()) {
            None => m,
            Some(x) => match m {
                None => Some(x),
                Some(y) => Some(
                    if x > y {
                        x
                    } else {
                        y
                    },
                ),
            },
        }
    }
}

pub proof fn lemma_opt_by_take<T>(rows: Seq<T>, f: spec_fn(T) -> Option<nat>, i: int)
    requires
        0 <= i < rows.len(),
    ensures
        opt_min_by(rows.take(i + 1), f) == match f(rows[i]) {
            None => opt_min_by(rows.take(i), f),
            Some(x) => match opt_min_by(rows.take(i), f) {
                None => Some(x),
                Some(y) => Some(
                    if x < y {
                        x
                    } else {
                        y
                    },
                ),
            },
        },
        opt_max_by(rows.take(i + 1), f) == match f(rows[i]) {
            None => opt_max_by(rows.take(i), f),
            Some(x) => match opt_max_by(rows.take(i), f) {
                None => Some(x),
                Some(y) => Some(
                    if x > y {
                        x
                    } else {
                        y
                    },
                ),
            },
        },
{
    assert(rows.take(i + 1).drop_last() =~= rows.take(i));
}

} // verus!
