//! Secondary ranking signals for rank fusion. Scores of heterogeneous
//! sources are not comparable, so documents are ordered by reciprocal rank
//! fusion over their positions (see [`crate::dedup::fuse_groups`]); freshness
//! and source authority break ties and weight results. Both signals are
//! given in thousandths.

use vstd::prelude::*;

use crate::external::{chrono_days_between, days_between, representable, whole_days};
use crate::model::{SourceKind, Timestamp};

verus! {

/// Freshness of a document this many whole days old, in thousandths:
/// today 1000, within 3 days 800, within 7 days 600, within 30 days 300,
/// older 100.
pub open spec fn freshness_tier(days: i64) -> u32 {
    if days <= 0 {
        1000
    } else if days <= 3 {
        800
    } else if days <= 7 {
        600
    } else if days <= 30 {
        300
    } else {
        100
    }
}

/// What `freshness_score` yields: 0 without a date (or with an instant the
/// calendar cannot represent), else the tier of the whole days elapsed.
pub open spec fn freshness_of(published: Option<Timestamp>, now: Timestamp) -> u32 {
    match published {
        None => 0,
        Some(dt) => match chrono_days_between(now, dt) {
            None => 0,
            Some(days) => freshness_tier(days),
        },
    }
}

/// Freshness score in thousandths: 1000 today, 800 within 3 days, 600
/// within 7, 300 within 30, 100 older, 0 undated.
pub fn freshness_score(published: Option<Timestamp>, now: Timestamp) -> (r: u32)
    ensures
        r == freshness_of(published, now),
        match published {
            Some(p) => representable(now) && representable(p) ==> r == freshness_tier(
                whole_days(now, p) as i64,
            ),
            None => r == 0,
        },
{
    match published {
        None => 0,
        Some(dt) => match days_between(now, dt) {
            None => 0,
            Some(days) => {
                if days <= 0 {
                    1000
                } else if days <= 3 {
                    800
                } else if days <= 7 {
                    600
                } else if days <= 30 {
                    300
                } else {
                    100
                }
            },
        },
    }
}

/// Source authority in thousandths, per source kind.
pub open spec fn authority_of(source: SourceKind) -> u32 {
    match source {
        SourceKind::Arxiv => 900,
        SourceKind::Blog => 850,
        SourceKind::News => 800,
        SourceKind::Web => 550,
        SourceKind::Youtube => 450,
    }
}

/// Source authority in thousandths: arXiv 900, blogs 850, news 800, web
/// 550, YouTube 450.
pub fn authority_score(source: SourceKind) -> (r: u32)
    ensures
        r == authority_of(source),
{
    match source {
        SourceKind::Arxiv => 900,
        SourceKind::Blog => 850,
        SourceKind::News => 800,
        SourceKind::Web => 550,
        SourceKind::Youtube => 450,
    }
}

} // verus!
