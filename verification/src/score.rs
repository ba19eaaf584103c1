//! Score bands and what they mean.
//!
//! Scores are centipawns for the side to move. Two bands hold proven results: mates
//! within a thousand of `MATE`, and races within `RACE_MATE`, where the distance to
//! the maximum is the exact number of plies left. `±RACE_WIN_FLOOR` is a proven result
//! of unknown length and belongs to neither band.

use crate::text;
use vstd::prelude::*;

verus! {

/// Score of a mate on the spot.
pub const MATE: i32 = 100_000;

/// Wider than every score.
pub const INF: i32 = 200_000;

/// Plies a search line may have.
pub const MAX_PLY: usize = 64;

/// Pawn pairs and sides to move on one wall topology.
pub const RACE_STATES: usize = 13_122;

/// Score of a race won on the spot.
pub const RACE_MATE: i32 = 50_000;

/// Score of a race proven won without a distance: just below the longest exact race.
pub const RACE_WIN_FLOOR: i32 = 36_877;

pub open spec fn magnitude(score: int) -> int {
    if score < 0 {
        -score
    } else {
        score
    }
}

/// Mate band.
pub open spec fn mate_band(score: int) -> bool {
    magnitude(score) >= MATE - 1000
}

/// Exact race band.
pub open spec fn race_band(score: int) -> bool {
    RACE_WIN_FLOOR < magnitude(score) <= RACE_MATE
}

/// The score proves a loss.
pub open spec fn proven_loss(score: int) -> bool {
    score < 0 && (mate_band(score) || race_band(score))
}

/// The score proves a win.
pub open spec fn proven_win(score: int) -> bool {
    score > 0 && (mate_band(score) || race_band(score))
}

/// Plies to the end encoded in a proven score.
pub open spec fn dtm(score: int) -> Option<int> {
    if mate_band(score) {
        Some(MATE - magnitude(score))
    } else if race_band(score) {
        Some(RACE_MATE - magnitude(score))
    } else {
        None
    }
}

pub fn abs_score(score: i32) -> (a: i32)
    requires
        score > i32::MIN,
    ensures
        a == magnitude(score as int),
{
    if score < 0 {
        -score
    } else {
        score
    }
}

/// Proven forced loss in the race or true-mate band.
pub fn is_proven_loss_score(score: i32) -> (r: bool)
    requires
        score > i32::MIN,
    ensures
        r == proven_loss(score as int),
{
    if score >= 0 {
        return false;
    }
    let abs: i32 = abs_score(score);
    abs >= MATE - 1_000 || (abs > RACE_WIN_FLOOR && abs <= RACE_MATE)
}

/// Proven forced win in the race or true-mate band.
pub fn is_proven_win_score(score: i32) -> (r: bool)
    requires
        score > i32::MIN,
    ensures
        r == proven_win(score as int),
{
    let abs: i32 = abs_score(score);
    (abs >= MATE - 1_000 || (abs > RACE_WIN_FLOOR && abs <= RACE_MATE)) && score > 0
}

/// Distance-to-mate plies encoded in a proven race or mate score.
pub fn proven_score_dtm(score: i32) -> (d: Option<i32>)
    requires
        score > i32::MIN,
    ensures
        match d {
            Some(v) => dtm(score as int) == Some(v as int),
            None => dtm(score as int) is None,
        },
{
    let abs: i32 = abs_score(score);
    if abs >= MATE - 1_000 {
        Some(MATE - abs)
    } else if abs > RACE_WIN_FLOOR && abs <= RACE_MATE {
        Some(RACE_MATE - abs)
    } else {
        None
    }
}

/// Name of the band a score lies in.
pub open spec fn result_class(score: int) -> Seq<char> {
    if proven_win(score) {
        if mate_band(score) {
            "mate_win"@
        } else {
            "race_win"@
        }
    } else if proven_loss(score) {
        if mate_band(score) {
            "mate_loss"@
        } else {
            "race_loss"@
        }
    } else {
        "cp"@
    }
}

pub fn score_result_class(score: i32) -> (class: &'static str)
    requires
        score > i32::MIN,
    ensures
        class@ == result_class(score as int),
{
    if is_proven_win_score(score) {
        if abs_score(score) >= MATE - 1_000 {
            "mate_win"
        } else {
            "race_win"
        }
    } else if is_proven_loss_score(score) {
        if abs_score(score) >= MATE - 1_000 {
            "mate_loss"
        } else {
            "race_loss"
        }
    } else {
        "cp"
    }
}

/// What a score is called in reports.
pub open spec fn label(score: int) -> Seq<char> {
    if mate_band(score) {
        let plies = if magnitude(score) > MATE {
            0
        } else {
            MATE - magnitude(score)
        };
        (if score > 0 {
            "mate in "@
        } else {
            "mated in "@
        }) + text::dec_int(plies)
    } else if race_band(score) {
        (if score > 0 {
            "race win in "@
        } else {
            "race loss in "@
        }) + text::dec_int(RACE_MATE - magnitude(score))
    } else if score == RACE_WIN_FLOOR {
        "proven race win"@
    } else if score == -RACE_WIN_FLOOR {
        "proven race loss"@
    } else {
        "cp "@ + text::dec_int(score)
    }
}

/// Human-readable score.
pub fn score_label(score: i32) -> (t: String)
    requires
        score > i32::MIN,
    ensures
        t@ == label(score as int),
{
    let mut out: String = String::new();
    let abs: i32 = abs_score(score);
    if abs >= MATE - 1_000 {
        let plies: i32 = if abs > MATE {
            0
        } else {
            MATE - abs
        };
        if score > 0 {
            out.append("mate in ");
        } else {
            out.append("mated in ");
        }
        text::push_i64(&mut out, plies as i64);
    } else if abs > RACE_WIN_FLOOR && abs <= RACE_MATE {
        if score > 0 {
            out.append("race win in ");
        } else {
            out.append("race loss in ");
        }
        text::push_i64(&mut out, (RACE_MATE - abs) as i64);
    } else if score == RACE_WIN_FLOOR {
        out.append("proven race win");
    } else if score == -RACE_WIN_FLOOR {
        out.append("proven race loss");
    } else {
        out.append("cp ");
        text::push_i64(&mut out, score as i64);
    }
    assert(out@ =~= label(score as int));
    out
}

/// A proven bound has no exact distance and is in neither proven band.
pub proof fn law_bound_is_not_an_exact_result()
    ensures
        dtm(RACE_WIN_FLOOR as int) is None,
        dtm(-RACE_WIN_FLOOR) is None,
        !proven_win(RACE_WIN_FLOOR as int),
        !proven_loss(-RACE_WIN_FLOOR),
{
}

/// Wins and losses mirror each other, no score is both, and exactly the proven scores
/// have a distance.
pub proof fn law_bands_are_symmetric(score: int)
    ensures
        proven_win(score) == proven_loss(-score),
        !(proven_win(score) && proven_loss(score)),
        dtm(score) == dtm(-score),
        (dtm(score) is Some) == (proven_win(score) || proven_loss(score)),
{
}

/// Exact race scores of every possible distance stay inside the race band, and the
/// distance is read back from the score.
pub proof fn law_race_distance_round_trip(plies: int)
    requires
        0 <= plies <= RACE_STATES,
    ensures
        race_band(RACE_MATE - plies),
        !mate_band(RACE_MATE - plies),
        dtm(RACE_MATE - plies) == Some(plies),
        dtm(-(RACE_MATE - plies)) == Some(plies),
{
}

/// Race semantics attached to a final result. A proof bound and an exact distance are
/// different states: an estimate never enters the exact band.
#[derive(Clone, Copy, Debug, PartialEq, Eq, Structural)]
pub struct RaceResultInfo {
    /// `1` the side to move is proven to win, `-1` proven to lose, `0` nothing proven.
    pub outcome: i8,
    /// Cheap estimate of the winner's arrival.
    pub approximate_plies: Option<u16>,
    /// Symmetric uncertainty of the estimate, in plies.
    pub approximation_tolerance: u8,
    /// Exact distance, when it was computed.
    pub exact_dtm: Option<u16>,
}

impl Default for RaceResultInfo {
    fn default() -> (r: Self)
        ensures
            r == no_race_info(),
    {
        RaceResultInfo {
            outcome: 0,
            approximate_plies: None,
            approximation_tolerance: 0,
            exact_dtm: None,
        }
    }
}

/// Nothing known.
pub open spec fn no_race_info() -> RaceResultInfo {
    RaceResultInfo {
        outcome: 0,
        approximate_plies: None,
        approximation_tolerance: 0,
        exact_dtm: None,
    }
}

/// A proven outcome with an optional estimate.
pub open spec fn approximate_info(outcome: i8, plies: Option<u16>) -> RaceResultInfo {
    RaceResultInfo {
        outcome,
        approximate_plies: plies,
        approximation_tolerance: if plies is Some {
            1
        } else {
            0
        },
        exact_dtm: None,
    }
}

/// A proven outcome with its exact distance.
pub open spec fn exact_info(outcome: i8, plies: u16) -> RaceResultInfo {
    RaceResultInfo {
        outcome,
        approximate_plies: None,
        approximation_tolerance: 0,
        exact_dtm: Some(plies),
    }
}

/// Sign of an integer.
pub open spec fn sign(x: int) -> int {
    if x > 0 {
        1
    } else if x < 0 {
        -1
    } else {
        0
    }
}

/// What a score says about the race.
pub open spec fn info_of_score(score: int) -> RaceResultInfo {
    if race_band(score) {
        exact_info(sign(score) as i8, (RACE_MATE - magnitude(score)) as u16)
    } else {
        no_race_info()
    }
}

impl RaceResultInfo {
    pub fn approximate(outcome: i8, plies: Option<u16>) -> (r: Self)
        ensures
            r == approximate_info(outcome, plies),
    {
        RaceResultInfo {
            outcome,
            approximate_plies: plies,
            approximation_tolerance: if plies.is_some() {
                1
            } else {
                0
            },
            exact_dtm: None,
        }
    }

    pub fn exact(outcome: i8, dtm: u16) -> (r: Self)
        ensures
            r == exact_info(outcome, dtm),
    {
        RaceResultInfo {
            outcome,
            approximate_plies: None,
            approximation_tolerance: 0,
            exact_dtm: Some(dtm),
        }
    }

    /// Reads the race out of a score: exact inside the race band, nothing elsewhere.
    pub fn from_score(score: i32) -> (r: Self)
        requires
            score > i32::MIN,
        ensures
            r == info_of_score(score as int),
    {
        let abs: i32 = abs_score(score);
        if abs > RACE_WIN_FLOOR && abs <= RACE_MATE {
            Self::exact(
                if score > 0 {
                    1
                } else {
                    -1
                },
                (RACE_MATE - abs) as u16,
            )
        } else {
            Self::default()
        }
    }
}

/// A score that is only a proven bound is never reported as an exact distance.
pub proof fn law_bound_has_no_exact_info()
    ensures
        info_of_score(RACE_WIN_FLOOR as int).exact_dtm is None,
        info_of_score(-RACE_WIN_FLOOR).exact_dtm is None,
        forall|outcome: i8, plies: Option<u16>|
            (#[trigger] approximate_info(outcome, plies)).exact_dtm is None,
{
}

} // verus!
