//! Instants: the Montréal time zone, RFC 3339 timestamps and durations, as
//! chrono and chrono-tz compute them, and the choice between the two readings
//! of an ambiguous local time.
use vstd::prelude::*;
use crate::calendrier::{date_valide, heure_valide, instant_admissible};

verus! {

/// What a local date and time denotes in a time zone: no instant (a gap),
/// one instant, or two (a fold, earliest first).  Instants are UNIX seconds.
pub enum ResultatLocal {
    Aucun,
    Unique(i64),
    Ambigu(i64, i64),
}

impl View for ResultatLocal {
    type V = Seq<i64>;

    open spec fn view(&self) -> Seq<i64> {
        match *self {
            ResultatLocal::Aucun => Seq::<i64>::empty(),
            ResultatLocal::Unique(a) => seq![a],
            ResultatLocal::Ambigu(a, b) => seq![a, b],
        }
    }
}

/// The instants (UNIX seconds) that chrono-tz gives for a local date and time
/// in the `America/Montreal` zone (`NaiveDateTime::and_local_timezone`),
/// in the order of its `LocalResult`.
pub uninterp spec fn instants_locaux_montreal(
    annee: i32,
    mois: u32,
    jour: u32,
    heure: u32,
    minute: u32,
    seconde: u32,
) -> Seq<i64>;

/// The instant (UNIX seconds, then nanoseconds past that second) that
/// `DateTime::parse_from_rfc3339` reads from a text, `None` where it fails.
pub uninterp spec fn instant_rfc3339(texte: Seq<char>) -> Option<(i64, u32)>;

/// An integer quotient rounded toward zero.
pub open spec fn quotient_vers_zero(n: int, d: int) -> int {
    if n >= 0 {
        n / d
    } else {
        -((-n) / d)
    }
}

/// The second that a leap second of one instant adds to a duration: chrono
/// counts it when the other instant is later in its day and removes it when
/// the other instant is earlier in its day.
pub open spec fn ajustement_seconde_intercalaire(a_s: int, a_ns: int, b_s: int, b_ns: int) -> int {
    let sa = a_s % 86400;
    let sb = b_s % 86400;
    if sa > sb && b_ns >= 1_000_000_000 {
        1
    } else if sa < sb && a_ns >= 1_000_000_000 {
        -1
    } else {
        0
    }
}

/// `a.signed_duration_since(b).num_seconds()` for two chrono instants given
/// as UNIX seconds and nanoseconds: the duration from `b` to `a`, with
/// chrono's rule for leap seconds, in whole seconds rounded toward zero.
pub open spec fn ecart_chrono(a_s: i64, a_ns: u32, b_s: i64, b_ns: u32) -> i64 {
    quotient_vers_zero(
        (a_s - b_s + ajustement_seconde_intercalaire(a_s as int, a_ns as int, b_s as int, b_ns as int))
            * 1_000_000_000 + (a_ns - b_ns),
        1_000_000_000,
    ) as i64
}

/// The local date and time `annee-mois-jour heure:minute:seconde` in the
/// `America/Montreal` zone.
///
/// Trusted: calls `NaiveDateTime::and_local_timezone(chrono_tz::America::Montreal)`
/// and turns each `DateTime` of the `LocalResult` into its `timestamp()`.  The
/// contract claims only that the result is the one chrono-tz gives for these
/// arguments; what the zone's rules are is not stated.
#[verifier::external_body]
pub(crate) fn instants_a_montreal(
    annee: i32,
    mois: u32,
    jour: u32,
    heure: u32,
    minute: u32,
    seconde: u32,
) -> (r: ResultatLocal)
    requires
        date_valide(annee as int, mois as int, jour as int),
        heure_valide(heure as int, minute as int, seconde as int),
    ensures
        r@ == instants_locaux_montreal(annee, mois, jour, heure, minute, seconde),
{
    let date = chrono::NaiveDate::from_ymd_opt(annee, mois, jour).unwrap();
    let temps = chrono::NaiveTime::from_hms_opt(heure, minute, seconde).unwrap();
    match chrono::NaiveDateTime::new(date, temps).and_local_timezone(
        chrono_tz::America::Montreal,
    ) {
        chrono::LocalResult::Single(t) => ResultatLocal::Unique(t.timestamp()),
        chrono::LocalResult::Ambiguous(a, b) => ResultatLocal::Ambigu(a.timestamp(), b.timestamp()),
        chrono::LocalResult::None => ResultatLocal::Aucun,
    }
}

/// Reads an RFC 3339 timestamp.
///
/// Trusted: calls `DateTime::parse_from_rfc3339` and gives the parsed instant as
/// `(timestamp(), timestamp_subsec_nanos())`.  The contract claims that the
/// result is chrono's for this text and that the instant can be rebuilt by
/// `DateTime::from_timestamp` (the parser takes four-digit years, and a leap
/// second only at second 59 of an offset in whole minutes).
#[verifier::external_body]
pub(crate) fn lire_rfc3339(texte: &str) -> (r: Option<(i64, u32)>)
    ensures
        r == instant_rfc3339(texte@),
        r matches Some(i) ==> instant_admissible(i.0 as int, i.1 as int),
{
    match chrono::DateTime::parse_from_rfc3339(texte) {
        Ok(t) => Some((t.timestamp(), t.timestamp_subsec_nanos())),
        Err(_) => None,
    }
}

/// The whole seconds from instant `b` to instant `a`.
///
/// Trusted: builds both instants with `DateTime::from_timestamp` and calls
/// `signed_duration_since` then `TimeDelta::num_seconds`.  The contract claims
/// chrono's result: the difference of the naive UTC times, where a leap second
/// counts as chrono counts it, rounded toward zero.
#[verifier::external_body]
pub(crate) fn ecart_en_secondes(a_s: i64, a_ns: u32, b_s: i64, b_ns: u32) -> (r: i64)
    requires
        instant_admissible(a_s as int, a_ns as int),
        instant_admissible(b_s as int, b_ns as int),
    ensures
        r == ecart_chrono(a_s, a_ns, b_s, b_ns),
{
    let a = chrono::DateTime::from_timestamp(a_s, a_ns).unwrap();
    let b = chrono::DateTime::from_timestamp(b_s, b_ns).unwrap();
    a.signed_duration_since(b).num_seconds()
}

/// The signed distance, in nanoseconds, from the instant `maintenant` (seconds
/// and nanoseconds) to the whole second `t`.
pub open spec fn distance_ns(t: int, maintenant_s: int, maintenant_ns: int) -> int {
    (t - maintenant_s) * 1_000_000_000 - maintenant_ns
}

pub open spec fn valeur_absolue(x: int) -> int {
    if x < 0 {
        -x
    } else {
        x
    }
}

/// The instant that the feed keeps for a local time: the only one, or, in a
/// fold, the one nearer to now (the earlier one when both are as near).
pub open spec fn instant_le_plus_proche(
    instants: Seq<i64>,
    maintenant_s: i64,
    maintenant_ns: u32,
) -> Option<i64> {
    if instants.len() == 0 {
        None
    } else if instants.len() == 1 {
        Some(instants[0])
    } else if valeur_absolue(distance_ns(instants[0] as int, maintenant_s as int, maintenant_ns as int))
        <= valeur_absolue(distance_ns(instants[1] as int, maintenant_s as int, maintenant_ns as int)) {
        Some(instants[0])
    } else {
        Some(instants[1])
    }
}

/// Chooses the instant of a local time: `None` in a gap, the instant itself
/// when there is one, and in a fold the one nearer to `maintenant`.
pub fn get_nearest_tz_from_local_result(
    resultat: &ResultatLocal,
    maintenant_s: i64,
    maintenant_ns: u32,
) -> (r: Option<i64>)
    requires
        maintenant_ns < 1_000_000_000,
    ensures
        r == instant_le_plus_proche(resultat@, maintenant_s, maintenant_ns),
{
    match resultat {
        ResultatLocal::Unique(t) => Some(*t),
        ResultatLocal::Ambigu(t1, t2) => {
            let d1 = (*t1 as i128 - maintenant_s as i128) * 1_000_000_000 - maintenant_ns as i128;
            let d2 = (*t2 as i128 - maintenant_s as i128) * 1_000_000_000 - maintenant_ns as i128;
            let a1 = if d1 < 0 {
                -d1
            } else {
                d1
            };
            let a2 = if d2 < 0 {
                -d2
            } else {
                d2
            };
            if a1 <= a2 {
                Some(*t1)
            } else {
                Some(*t2)
            }
        },
        ResultatLocal::Aucun => None,
    }
}

/// The instant kept for a local time is one of its readings, and no reading
/// is nearer to now.
pub proof fn loi_instant_le_plus_proche(instants: Seq<i64>, maintenant_s: i64, maintenant_ns: u32)
    requires
        instants.len() <= 2,
    ensures
        instant_le_plus_proche(instants, maintenant_s, maintenant_ns) is None <==> instants.len()
            == 0,
        instant_le_plus_proche(instants, maintenant_s, maintenant_ns) matches Some(t) ==> {
            &&& instants.contains(t)
            &&& forall|k: int|
                0 <= k < instants.len() ==> valeur_absolue(
                    distance_ns(t as int, maintenant_s as int, maintenant_ns as int),
                ) <= valeur_absolue(
                    distance_ns(#[trigger] instants[k] as int, maintenant_s as int, maintenant_ns as int),
                )
        },
{
    if instants.len() > 0 {
        let t = instant_le_plus_proche(instants, maintenant_s, maintenant_ns)->0;
        if instants.len() == 1 || t == instants[0] {
            assert(instants[0] == t);
        } else {
            assert(instants[1] == t);
        }
    }
}

} // verus!
