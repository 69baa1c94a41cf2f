//! Civil dates and times of day, and the timestamps that the RTC API writes.
use vstd::prelude::*;
use crate::texte::{
    caracteres, decimal_naturel, decoupe, decouper, i32_ecrit, lemme_chiffres_sans,
    lemme_decoupe_concat, lemme_decoupe_sans_separateur, lemme_sans_dans_concat, lire_i32, lire_u32,
    loi_ecriture_decimale, loi_lecture_decimale, u32_ecrit,
};

verus! {

/// First year of the proleptic Gregorian calendar that chrono's dates hold.
pub const ANNEE_MIN: i32 = -262143;

/// Last year of the proleptic Gregorian calendar that chrono's dates hold.
pub const ANNEE_MAX: i32 = 262142;

/// First second (UNIX time) of chrono's date range: -262143-01-01 00:00:00 UTC.
pub const INSTANT_MIN: i64 = -8334601228800;

/// Last second (UNIX time) of chrono's date range: 262142-12-31 23:59:59 UTC.
pub const INSTANT_MAX: i64 = 8210266876799;

pub open spec fn bissextile(annee: int) -> bool {
    (annee % 4 == 0 && annee % 100 != 0) || annee % 400 == 0
}

pub open spec fn jours_du_mois(annee: int, mois: int) -> int {
    if mois == 2 {
        if bissextile(annee) {
            29
        } else {
            28
        }
    } else if mois == 4 || mois == 6 || mois == 9 || mois == 11 {
        30
    } else {
        31
    }
}

/// A day of the proleptic Gregorian calendar within chrono's range
/// (`NaiveDate::from_ymd_opt` returns `Some`).
pub open spec fn date_valide(annee: int, mois: int, jour: int) -> bool {
    &&& ANNEE_MIN <= annee <= ANNEE_MAX
    &&& 1 <= mois <= 12
    &&& 1 <= jour <= jours_du_mois(annee, mois)
}

/// A time of day without leap second (`NaiveTime::from_hms_opt` returns `Some`).
pub open spec fn heure_valide(heure: int, minute: int, seconde: int) -> bool {
    0 <= heure < 24 && 0 <= minute < 60 && 0 <= seconde < 60
}

/// An instant, in seconds and nanoseconds of UNIX time, that chrono can build
/// back into a `DateTime` (`DateTime::from_timestamp` returns `Some`).
pub open spec fn instant_admissible(secondes: int, nanos: int) -> bool {
    &&& INSTANT_MIN <= secondes <= INSTANT_MAX
    &&& 0 <= nanos < 2_000_000_000
    &&& nanos >= 1_000_000_000 ==> secondes % 60 == 59
}

pub fn est_bissextile(annee: i32) -> (r: bool)
    ensures
        r == bissextile(annee as int),
{
    (annee % 4 == 0 && annee % 100 != 0) || annee % 400 == 0
}

pub fn nombre_de_jours(annee: i32, mois: u32) -> (r: u32)
    ensures
        r == jours_du_mois(annee as int, mois as int),
{
    if mois == 2 {
        if est_bissextile(annee) {
            29
        } else {
            28
        }
    } else if mois == 4 || mois == 6 || mois == 9 || mois == 11 {
        30
    } else {
        31
    }
}

pub fn est_date_valide(annee: i32, mois: u32, jour: u32) -> (r: bool)
    ensures
        r == date_valide(annee as int, mois as int, jour as int),
{
    ANNEE_MIN <= annee && annee <= ANNEE_MAX && 1 <= mois && mois <= 12 && 1 <= jour && jour
        <= nombre_de_jours(annee, mois)
}

pub fn est_heure_valide(heure: u32, minute: u32, seconde: u32) -> (r: bool)
    ensures
        r == heure_valide(heure as int, minute as int, seconde as int),
{
    heure < 24 && minute < 60 && seconde < 60
}

/// A calendar day that chrono accepts.
#[derive(Clone, Copy, Debug)]
pub struct DateCivile {
    annee: i32,
    mois: u32,
    jour: u32,
}

impl View for DateCivile {
    type V = (i32, u32, u32);

    closed spec fn view(&self) -> (i32, u32, u32) {
        (self.annee, self.mois, self.jour)
    }
}

impl DateCivile {
    #[verifier::type_invariant]
    spec fn bien_formee(self) -> bool {
        date_valide(self.annee as int, self.mois as int, self.jour as int)
    }

    /// The day `annee-mois-jour`, where it exists.
    pub fn new(annee: i32, mois: u32, jour: u32) -> (r: Option<DateCivile>)
        ensures
            r is Some <==> date_valide(annee as int, mois as int, jour as int),
            r matches Some(d) ==> d@ == (annee, mois, jour),
    {
        if est_date_valide(annee, mois, jour) {
            Some(DateCivile { annee, mois, jour })
        } else {
            None
        }
    }

    /// Year, month and day.
    pub fn valeur(&self) -> (r: (i32, u32, u32))
        ensures
            r == self@,
            date_valide(r.0 as int, r.1 as int, r.2 as int),
    {
        proof {
            use_type_invariant(self);
        }
        (self.annee, self.mois, self.jour)
    }
}

/// A local date and time of day read from text: year, month, day, hour,
/// minute, second.
pub type DateHeure = (i32, u32, u32, u32, u32, u32);

/// The local date and time that the RTC API writes as `YYYY-MM-DDThh:mm:ss`,
/// read as the feed reads it: the text is split on `T`, the first piece on
/// `-` and the second on `:`; the first three pieces of each are read as
/// integers (`i32` for the year, `u32` for the others; further pieces are
/// ignored) and must form a valid date and time of day.
pub open spec fn date_heure_ecrite(s: Seq<char>) -> Option<DateHeure> {
    let dt = decoupe(s, 'T');
    if dt.len() < 2 {
        None
    } else {
        let d = decoupe(dt[0], '-');
        let t = decoupe(dt[1], ':');
        if d.len() < 3 || t.len() < 3 {
            None
        } else {
            match (
                i32_ecrit(d[0]),
                u32_ecrit(d[1]),
                u32_ecrit(d[2]),
                u32_ecrit(t[0]),
                u32_ecrit(t[1]),
                u32_ecrit(t[2]),
            ) {
                (Some(a), Some(m), Some(j), Some(h), Some(mi), Some(se)) => {
                    if date_valide(a as int, m as int, j as int) && heure_valide(
                        h as int,
                        mi as int,
                        se as int,
                    ) {
                        Some((a, m, j, h, mi, se))
                    } else {
                        None
                    }
                },
                _ => None,
            }
        }
    }
}

/// Reads a `YYYY-MM-DDThh:mm:ss` local date and time.
pub fn lire_date_heure(s: &str) -> (r: Option<DateHeure>)
    ensures
        r == date_heure_ecrite(s@),
        r matches Some(v) ==> date_valide(v.0 as int, v.1 as int, v.2 as int) && heure_valide(
            v.3 as int,
            v.4 as int,
            v.5 as int,
        ),
{
    let c = caracteres(s);
    let n = c.len();
    assert(c@.subrange(0, n as int) =~= s@);
    let dt = decouper(&c, 0, n, 'T');
    if dt.len() < 2 {
        return None;
    }
    let (d0, d1) = dt[0];
    let (t0, t1) = dt[1];
    assert(c@.subrange(d0 as int, d1 as int) == decoupe(s@, 'T')[0]);
    assert(c@.subrange(t0 as int, t1 as int) == decoupe(s@, 'T')[1]);
    let d = decouper(&c, d0, d1, '-');
    let t = decouper(&c, t0, t1, ':');
    if d.len() < 3 || t.len() < 3 {
        return None;
    }
    let ghost dd = decoupe(decoupe(s@, 'T')[0], '-');
    let ghost tt = decoupe(decoupe(s@, 'T')[1], ':');
    assert(c@.subrange(d[0].0 as int, d[0].1 as int) == dd[0]);
    assert(c@.subrange(d[1].0 as int, d[1].1 as int) == dd[1]);
    assert(c@.subrange(d[2].0 as int, d[2].1 as int) == dd[2]);
    assert(c@.subrange(t[0].0 as int, t[0].1 as int) == tt[0]);
    assert(c@.subrange(t[1].0 as int, t[1].1 as int) == tt[1]);
    assert(c@.subrange(t[2].0 as int, t[2].1 as int) == tt[2]);
    let a = lire_i32(&c, d[0].0, d[0].1);
    let m = lire_u32(&c, d[1].0, d[1].1);
    let j = lire_u32(&c, d[2].0, d[2].1);
    let h = lire_u32(&c, t[0].0, t[0].1);
    let mi = lire_u32(&c, t[1].0, t[1].1);
    let se = lire_u32(&c, t[2].0, t[2].1);
    match (a, m, j, h, mi, se) {
        (Some(a), Some(m), Some(j), Some(h), Some(mi), Some(se)) => {
            if est_date_valide(a, m, j) && est_heure_valide(h, mi, se) {
                Some((a, m, j, h, mi, se))
            } else {
                None
            }
        },
        _ => None,
    }
}

/// Months have the lengths of the Gregorian calendar: 31 days for January,
/// March, May, July, August, October and December, 30 for April, June,
/// September and November, 29 for February in a leap year and 28 otherwise;
/// a year has 366 days when it is a leap year and 365 otherwise, and the last
/// day of each month is a valid date throughout chrono's range.
pub proof fn loi_longueur_des_mois(annee: int)
    ensures
        jours_du_mois(annee, 1) == 31,
        jours_du_mois(annee, 2) == if (annee % 4 == 0 && annee % 100 != 0) || annee % 400 == 0 {
            29int
        } else {
            28int
        },
        jours_du_mois(annee, 3) == 31,
        jours_du_mois(annee, 4) == 30,
        jours_du_mois(annee, 5) == 31,
        jours_du_mois(annee, 6) == 30,
        jours_du_mois(annee, 7) == 31,
        jours_du_mois(annee, 8) == 31,
        jours_du_mois(annee, 9) == 30,
        jours_du_mois(annee, 10) == 31,
        jours_du_mois(annee, 11) == 30,
        jours_du_mois(annee, 12) == 31,
        jours_du_mois(annee, 1) + jours_du_mois(annee, 2) + jours_du_mois(annee, 3) + jours_du_mois(
            annee,
            4,
        ) + jours_du_mois(annee, 5) + jours_du_mois(annee, 6) + jours_du_mois(annee, 7)
            + jours_du_mois(annee, 8) + jours_du_mois(annee, 9) + jours_du_mois(annee, 10)
            + jours_du_mois(annee, 11) + jours_du_mois(annee, 12) == if bissextile(annee) {
            366int
        } else {
            365int
        },
        ANNEE_MIN <= annee <= ANNEE_MAX ==> forall|mois: int|
            1 <= mois <= 12 ==> date_valide(annee, mois, #[trigger] jours_du_mois(annee, mois))
                && !date_valide(annee, mois, jours_du_mois(annee, mois) + 1),
{
}

/// A local date and time written `A-M-JTh:m:s`, each number in decimal.
pub open spec fn date_heure_en_texte(a: nat, m: nat, j: nat, h: nat, mi: nat, se: nat) -> Seq<char> {
    (decimal_naturel(a).push('-') + (decimal_naturel(m).push('-') + decimal_naturel(j))).push('T') + (
    decimal_naturel(h).push(':') + (decimal_naturel(mi).push(':') + decimal_naturel(se)))
}

proof fn lemme_decimal_sans_separateurs(n: nat)
    ensures
        !decimal_naturel(n).contains('-'),
        !decimal_naturel(n).contains('T'),
        !decimal_naturel(n).contains(':'),
{
    loi_ecriture_decimale(n);
    lemme_chiffres_sans(decimal_naturel(n), '-');
    lemme_chiffres_sans(decimal_naturel(n), 'T');
    lemme_chiffres_sans(decimal_naturel(n), ':');
}

/// An update time written with the numbers of a valid date (of a year that is
/// not negative) and of a valid time of day reads back as those numbers.
pub proof fn loi_lecture_date_heure(a: i32, m: u32, j: u32, h: u32, mi: u32, se: u32)
    requires
        0 <= a,
        date_valide(a as int, m as int, j as int),
        heure_valide(h as int, mi as int, se as int),
    ensures
        date_heure_ecrite(
            date_heure_en_texte(a as nat, m as nat, j as nat, h as nat, mi as nat, se as nat),
        ) == Some((a, m, j, h, mi, se)),
{
    let da = decimal_naturel(a as nat);
    let dm = decimal_naturel(m as nat);
    let dj = decimal_naturel(j as nat);
    let dh = decimal_naturel(h as nat);
    let dmi = decimal_naturel(mi as nat);
    let dse = decimal_naturel(se as nat);
    lemme_decimal_sans_separateurs(a as nat);
    lemme_decimal_sans_separateurs(m as nat);
    lemme_decimal_sans_separateurs(j as nat);
    lemme_decimal_sans_separateurs(h as nat);
    lemme_decimal_sans_separateurs(mi as nat);
    lemme_decimal_sans_separateurs(se as nat);
    let date = da.push('-') + (dm.push('-') + dj);
    let temps = dh.push(':') + (dmi.push(':') + dse);
    lemme_sans_dans_concat(dm, '-', dj, 'T');
    lemme_sans_dans_concat(da, '-', dm.push('-') + dj, 'T');
    lemme_sans_dans_concat(dmi, ':', dse, 'T');
    lemme_sans_dans_concat(dh, ':', dmi.push(':') + dse, 'T');
    lemme_decoupe_concat(date, temps, 'T');
    lemme_decoupe_sans_separateur(date, 'T');
    lemme_decoupe_sans_separateur(temps, 'T');
    assert(decoupe(date.push('T') + temps, 'T') =~= seq![date, temps]);
    lemme_decoupe_concat(dm, dj, '-');
    lemme_decoupe_concat(da, dm.push('-') + dj, '-');
    lemme_decoupe_sans_separateur(da, '-');
    lemme_decoupe_sans_separateur(dm, '-');
    lemme_decoupe_sans_separateur(dj, '-');
    assert(decoupe(date, '-') =~= seq![da, dm, dj]);
    lemme_decoupe_concat(dmi, dse, ':');
    lemme_decoupe_concat(dh, dmi.push(':') + dse, ':');
    lemme_decoupe_sans_separateur(dh, ':');
    lemme_decoupe_sans_separateur(dmi, ':');
    lemme_decoupe_sans_separateur(dse, ':');
    assert(decoupe(temps, ':') =~= seq![dh, dmi, dse]);
    loi_lecture_decimale(a as nat);
    loi_lecture_decimale(m as nat);
    loi_lecture_decimale(j as nat);
    loi_lecture_decimale(h as nat);
    loi_lecture_decimale(mi as nat);
    loi_lecture_decimale(se as nat);
}

} // verus!
