//! Text rules: decimal numbers, splitting on a separator, substring search.
use vstd::prelude::*;
use vstd::string::*;

verus! {

// ---------------------------------------------------------------------------
// Decimal digits
// ---------------------------------------------------------------------------

pub open spec fn est_chiffre(c: char) -> bool {
    '0' <= c && c <= '9'
}

pub open spec fn valeur_chiffre(c: char) -> int {
    c as int - '0' as int
}

/// The character of a digit `0 <= d < 10`.
pub open spec fn chiffre(d: int) -> char {
    (d + '0' as int) as char
}

pub open spec fn que_des_chiffres(s: Seq<char>) -> bool {
    forall|i: int| 0 <= i < s.len() ==> est_chiffre(#[trigger] s[i])
}

/// The number written by the digits `s`, most significant first.
pub open spec fn valeur_chiffres(s: Seq<char>) -> int
    decreases s.len(),
{
    if s.len() == 0 {
        0
    } else {
        valeur_chiffres(s.drop_last()) * 10 + valeur_chiffre(s.last())
    }
}

/// The number written by a non-empty run of digits, if `s` is one.
pub open spec fn naturel_ecrit(s: Seq<char>) -> Option<int> {
    if s.len() > 0 && que_des_chiffres(s) {
        Some(valeur_chiffres(s))
    } else {
        None
    }
}

/// The integer that the standard library reads from `s` (`str::parse`):
/// an optional `+` (or `-` where negative numbers are allowed) followed by
/// at least one digit, and nothing else.  The range check is separate.
pub open spec fn entier_ecrit(s: Seq<char>, negatif_permis: bool) -> Option<int> {
    if s.len() > 0 && s[0] == '+' {
        naturel_ecrit(s.drop_first())
    } else if negatif_permis && s.len() > 0 && s[0] == '-' {
        match naturel_ecrit(s.drop_first()) {
            Some(v) => Some(-v),
            None => None,
        }
    } else {
        naturel_ecrit(s)
    }
}

/// `u32` read from text: `None` where `str::parse::<u32>` fails.
pub open spec fn u32_ecrit(s: Seq<char>) -> Option<u32> {
    match entier_ecrit(s, false) {
        Some(v) => if v <= u32::MAX {
            Some(v as u32)
        } else {
            None
        },
        None => None,
    }
}

/// `i32` read from text: `None` where `str::parse::<i32>` fails.
pub open spec fn i32_ecrit(s: Seq<char>) -> Option<i32> {
    match entier_ecrit(s, true) {
        Some(v) => if i32::MIN <= v <= i32::MAX {
            Some(v as i32)
        } else {
            None
        },
        None => None,
    }
}

/// Decimal writing of a natural number, without leading zeros.
pub open spec fn decimal_naturel(n: nat) -> Seq<char>
    decreases n,
{
    if n < 10 {
        seq![chiffre(n as int)]
    } else {
        decimal_naturel(n / 10).push(chiffre((n % 10) as int))
    }
}

/// Decimal writing of an integer, as `Display` writes it: a `-` before the
/// digits of a negative number.
pub open spec fn decimal_entier(n: int) -> Seq<char> {
    if n < 0 {
        seq!['-'] + decimal_naturel((-n) as nat)
    } else {
        decimal_naturel(n as nat)
    }
}

// ---------------------------------------------------------------------------
// Splitting and searching
// ---------------------------------------------------------------------------

/// The pieces of `s` between the occurrences of `sep`, as `str::split` gives
/// them: one more piece than there are separators, pieces possibly empty.
pub open spec fn decoupe(s: Seq<char>, sep: char) -> Seq<Seq<char>>
    decreases s.len(),
{
    if s.len() == 0 {
        seq![Seq::<char>::empty()]
    } else {
        let avant = decoupe(s.drop_last(), sep);
        if s.last() == sep {
            avant.push(Seq::<char>::empty())
        } else {
            avant.update(avant.len() - 1, avant.last().push(s.last()))
        }
    }
}

/// `motif` occurs in `s` (`str::contains`).
pub open spec fn contient(s: Seq<char>, motif: Seq<char>) -> bool {
    exists|i: int|
        0 <= i && i + motif.len() <= s.len() && #[trigger] s.subrange(i, i + motif.len())
            =~= motif
}

/// The text pieces that a list of ranges designates in `s`.
pub open spec fn tranches(s: Seq<char>, bornes: Seq<(usize, usize)>) -> Seq<Seq<char>> {
    bornes.map_values(|b: (usize, usize)| s.subrange(b.0 as int, b.1 as int))
}

/// The pieces joined back with the separator between them.
pub open spec fn rejoint(morceaux: Seq<Seq<char>>, sep: char) -> Seq<char>
    decreases morceaux.len(),
{
    if morceaux.len() == 0 {
        Seq::<char>::empty()
    } else if morceaux.len() == 1 {
        morceaux[0]
    } else {
        rejoint(morceaux.drop_last(), sep).push(sep) + morceaux.last()
    }
}

proof fn lemme_rejoint_prolonge(m: Seq<Seq<char>>, sep: char, c: char)
    requires
        m.len() >= 1,
    ensures
        rejoint(m.update(m.len() - 1, m.last().push(c)), sep) == rejoint(m, sep).push(c),
{
    let m2 = m.update(m.len() - 1, m.last().push(c));
    if m.len() > 1 {
        assert(m2.drop_last() =~= m.drop_last());
        assert(rejoint(m2, sep) =~= rejoint(m, sep).push(c));
    }
}

/// Splitting a text on a separator and joining the pieces back with it gives
/// the text again, and no piece holds the separator.
pub proof fn loi_decoupe(s: Seq<char>, sep: char)
    ensures
        rejoint(decoupe(s, sep), sep) == s,
        decoupe(s, sep).len() >= 1,
        forall|k: int| 0 <= k < decoupe(s, sep).len() ==> !(#[trigger] decoupe(s, sep)[k]).contains(sep),
    decreases s.len(),
{
    if s.len() > 0 {
        let avant = decoupe(s.drop_last(), sep);
        loi_decoupe(s.drop_last(), sep);
        let d = decoupe(s, sep);
        if s.last() == sep {
            assert(d.drop_last() =~= avant);
            assert(rejoint(d, sep) =~= s);
            assert forall|k: int| 0 <= k < d.len() implies !(#[trigger] d[k]).contains(sep) by {
                if k < avant.len() {
                    assert(d[k] == avant[k]);
                }
            }
        } else {
            lemme_rejoint_prolonge(avant, sep, s.last());
            assert(rejoint(d, sep) =~= s);
            assert forall|k: int| 0 <= k < d.len() implies !(#[trigger] d[k]).contains(sep) by {
                if k < avant.len() - 1 {
                    assert(d[k] == avant[k]);
                } else {
                    let dernier = avant[avant.len() - 1];
                    assert(!dernier.contains(sep));
                    if d[k].contains(sep) {
                        let i = choose|i: int| 0 <= i < d[k].len() && d[k][i] == sep;
                        if i < dernier.len() {
                            assert(dernier[i] == sep);
                        }
                    }
                }
            }
        }
    }
}

proof fn lemme_chiffre(d: int)
    requires
        0 <= d < 10,
    ensures
        est_chiffre(chiffre(d)),
        valeur_chiffre(chiffre(d)) == d,
        d != 0 ==> chiffre(d) != '0',
{
    assert(chiffre(d) as int == d + 48);
}

/// The decimal writing of a number is a run of digits, without a leading zero
/// unless the number is zero, that reads back as the number.
pub proof fn loi_ecriture_decimale(n: nat)
    ensures
        decimal_naturel(n).len() >= 1,
        que_des_chiffres(decimal_naturel(n)),
        valeur_chiffres(decimal_naturel(n)) == n,
        n > 0 ==> decimal_naturel(n)[0] != '0',
    decreases n,
{
    lemme_chiffre((n % 10) as int);
    if n >= 10 {
        loi_ecriture_decimale(n / 10);
        let d = decimal_naturel(n);
        assert(d.drop_last() =~= decimal_naturel(n / 10));
        assert(d[0] == decimal_naturel(n / 10)[0]);
        assert(d.last() == chiffre((n % 10) as int));
        assert(valeur_chiffres(d) == valeur_chiffres(d.drop_last()) * 10 + valeur_chiffre(d.last()));
        assert(n == (n / 10) * 10 + n % 10);
        assert forall|i: int| 0 <= i < d.len() implies est_chiffre(#[trigger] d[i]) by {
            if i < d.len() - 1 {
                assert(d[i] == decimal_naturel(n / 10)[i]);
            }
        }
    } else {
        let d = decimal_naturel(n);
        assert(d.drop_last() =~= Seq::<char>::empty());
        assert(valeur_chiffres(d) == valeur_chiffres(d.drop_last()) * 10 + valeur_chiffre(d.last()));
    }
}

/// A text without the separator is a single piece.
pub proof fn lemme_decoupe_sans_separateur(x: Seq<char>, sep: char)
    requires
        !x.contains(sep),
    ensures
        decoupe(x, sep) == seq![x],
    decreases x.len(),
{
    if x.len() == 0 {
        assert(x =~= Seq::<char>::empty());
        assert(decoupe(x, sep) =~= seq![x]);
    } else {
        assert(!x.drop_last().contains(sep)) by {
            if x.drop_last().contains(sep) {
                let i = choose|i: int| 0 <= i < x.drop_last().len() && x.drop_last()[i] == sep;
                assert(x[i] == sep);
            }
        }
        lemme_decoupe_sans_separateur(x.drop_last(), sep);
        assert(x[x.len() - 1] != sep);
        assert(x.drop_last().push(x.last()) =~= x);
        let avant = decoupe(x.drop_last(), sep);
        assert(decoupe(x, sep) == avant.update(avant.len() - 1, avant.last().push(x.last())));
        assert(avant.update(avant.len() - 1, avant.last().push(x.last())) =~= seq![x]);
    }
}

/// Splitting `a`, the separator, then `b` gives the pieces of `a` followed by
/// those of `b`.
pub proof fn lemme_decoupe_concat(a: Seq<char>, b: Seq<char>, sep: char)
    ensures
        decoupe(a.push(sep) + b, sep) == decoupe(a, sep) + decoupe(b, sep),
    decreases b.len(),
{
    let t = a.push(sep) + b;
    if b.len() == 0 {
        assert(t =~= a.push(sep));
        assert(a.push(sep).drop_last() =~= a);
        assert(decoupe(t, sep) =~= decoupe(a, sep) + decoupe(b, sep));
    } else {
        lemme_decoupe_concat(a, b.drop_last(), sep);
        assert(t.drop_last() =~= a.push(sep) + b.drop_last());
        assert(t.last() == b.last());
        loi_decoupe(b.drop_last(), sep);
        let da = decoupe(a, sep);
        let db = decoupe(b.drop_last(), sep);
        if b.last() == sep {
            assert(decoupe(t, sep) =~= da + decoupe(b, sep));
        } else {
            let u = da + db;
            assert(u.update(u.len() - 1, u.last().push(b.last())) =~= da + db.update(
                db.len() - 1,
                db.last().push(b.last()),
            ));
            assert(decoupe(t, sep) =~= da + decoupe(b, sep));
        }
    }
}

/// A run of digits holds no other character.
pub proof fn lemme_chiffres_sans(x: Seq<char>, c: char)
    requires
        que_des_chiffres(x),
        !est_chiffre(c),
    ensures
        !x.contains(c),
{
    if x.contains(c) {
        let i = choose|i: int| 0 <= i < x.len() && x[i] == c;
        assert(est_chiffre(x[i]));
    }
}

/// The standard library reads back the decimal writing of a number.
pub proof fn loi_lecture_decimale(n: nat)
    ensures
        n <= u32::MAX ==> u32_ecrit(decimal_naturel(n)) == Some(n as u32),
        n <= i32::MAX ==> i32_ecrit(decimal_naturel(n)) == Some(n as i32),
{
    loi_ecriture_decimale(n);
    let d = decimal_naturel(n);
    assert(est_chiffre(d[0]));
}

/// Joining with a separator brings in no character that neither side nor the
/// separator holds.
pub proof fn lemme_sans_dans_concat(a: Seq<char>, c: char, b: Seq<char>, x: char)
    requires
        !a.contains(x),
        c != x,
        !b.contains(x),
    ensures
        !(a.push(c) + b).contains(x),
{
    let t = a.push(c) + b;
    if t.contains(x) {
        let i = choose|i: int| 0 <= i < t.len() && t[i] == x;
        if i < a.len() {
            assert(a[i] == x);
        } else if i > a.len() {
            assert(b[i - a.len() - 1] == x);
        }
    }
}

// ---------------------------------------------------------------------------
// Lemmas
// ---------------------------------------------------------------------------

proof fn lemme_valeur_croissante(s: Seq<char>, k: int)
    requires
        que_des_chiffres(s),
        0 <= k <= s.len(),
    ensures
        valeur_chiffres(s.take(k)) <= valeur_chiffres(s),
        0 <= valeur_chiffres(s.take(k)),
    decreases s.len(),
{
    if s.len() > 0 {
        if k == s.len() {
            assert(s.take(k) =~= s);
            lemme_valeur_positive(s);
        } else {
            assert(que_des_chiffres(s.drop_last()));
            lemme_valeur_croissante(s.drop_last(), k);
            assert(s.drop_last().take(k) =~= s.take(k));
            lemme_valeur_positive(s.drop_last());
            assert(est_chiffre(s[s.len() - 1]));
        }
    } else {
        assert(s.take(k) =~= s);
    }
}

proof fn lemme_valeur_positive(s: Seq<char>)
    requires
        que_des_chiffres(s),
    ensures
        0 <= valeur_chiffres(s),
    decreases s.len(),
{
    if s.len() > 0 {
        assert(que_des_chiffres(s.drop_last()));
        lemme_valeur_positive(s.drop_last());
        assert(est_chiffre(s[s.len() - 1]));
    }
}

// ---------------------------------------------------------------------------
// Executable text functions
// ---------------------------------------------------------------------------

/// Appends one character to a text.
///
/// Trusted: calls `String::push`, which the standard library documents as
/// appending the character to the end of the string.
#[verifier::external_body]
pub(crate) fn ajouter_caractere(s: &mut String, c: char)
    ensures
        final(s)@ == old(s)@.push(c),
{
    s.push(c);
}

/// Whether two texts are equal.
pub fn texte_egal(a: &String, b: &String) -> (r: bool)
    ensures
        r == (a@ == b@),
{
    a.eq(b)
}

/// The characters of a text.
pub fn caracteres(s: &str) -> (r: Vec<char>)
    ensures
        r@ == s@,
{
    let n = s.unicode_len();
    let mut r: Vec<char> = Vec::new();
    let mut i: usize = 0;
    while i < n
        invariant
            n == s@.len(),
            i <= n,
            r@ == s@.take(i as int),
        decreases n - i,
    {
        let c = s.get_char(i);
        r.push(c);
        i = i + 1;
        assert(r@ =~= s@.take(i as int));
    }
    assert(r@ =~= s@);
    r
}

/// Appends `t` to `s`.
pub fn ajouter_texte(s: &mut String, t: &str)
    ensures
        final(s)@ == old(s)@ + t@,
{
    s.append(t);
}

fn chiffre_de(d: u64) -> (c: char)
    requires
        d < 10,
    ensures
        c == chiffre(d as int),
{
    let c = match d {
        0 => '0',
        1 => '1',
        2 => '2',
        3 => '3',
        4 => '4',
        5 => '5',
        6 => '6',
        7 => '7',
        8 => '8',
        _ => '9',
    };
    c
}

/// Writes the decimal digits of `n` at the end of `s`.
pub fn ecrire_naturel(s: &mut String, n: u64)
    ensures
        final(s)@ == old(s)@ + decimal_naturel(n as nat),
    decreases n,
{
    if n >= 10 {
        ecrire_naturel(s, n / 10);
    }
    ajouter_caractere(s, chiffre_de(n % 10));
    assert(decimal_naturel(n as nat) == if n < 10 {
        seq![chiffre(n as int)]
    } else {
        decimal_naturel((n / 10) as nat).push(chiffre((n % 10) as int))
    });
}

/// Writes `n` as `Display` writes it, at the end of `s`.
pub fn ecrire_entier(s: &mut String, n: i64)
    ensures
        final(s)@ == old(s)@ + decimal_entier(n as int),
{
    if n < 0 {
        ajouter_caractere(s, '-');
        let magnitude: u64 = if n == i64::MIN {
            9223372036854775808u64
        } else {
            (-n) as u64
        };
        ecrire_naturel(s, magnitude);
        assert(final(s)@ =~= old(s)@ + decimal_entier(n as int));
    } else {
        ecrire_naturel(s, n as u64);
    }
}

/// `n.to_string()` for an `i64`.
pub fn entier_en_texte(n: i64) -> (r: String)
    ensures
        r@ == decimal_entier(n as int),
{
    let mut r = String::new();
    ecrire_entier(&mut r, n);
    assert(r@ =~= decimal_entier(n as int));
    r
}

/// The number written by the digits `s[debut..fin]`, where it is at most
/// `borne`; `None` where a character is not a digit, the range is empty or the
/// number exceeds `borne`.
fn lire_naturel(s: &Vec<char>, debut: usize, fin: usize, borne: u64) -> (r: Option<u64>)
    requires
        debut <= fin <= s@.len(),
        borne <= u32::MAX as u64 + 1,
    ensures
        match naturel_ecrit(s@.subrange(debut as int, fin as int)) {
            Some(v) => if v <= borne {
                r == Some(v as u64)
            } else {
                r is None
            },
            None => r is None,
        },
        r matches Some(x) ==> x <= borne && naturel_ecrit(s@.subrange(debut as int, fin as int))
            == Some(x as int),
{
    let ghost t = s@.subrange(debut as int, fin as int);
    if debut == fin {
        return None;
    }
    let mut i = debut;
    while i < fin
        invariant
            debut <= i <= fin <= s@.len(),
            t == s@.subrange(debut as int, fin as int),
            forall|j: int| 0 <= j < i - debut ==> est_chiffre(#[trigger] t[j]),
        decreases fin - i,
    {
        let c = s[i];
        if !('0' <= c && c <= '9') {
            assert(!est_chiffre(t[i - debut]));
            return None;
        }
        i = i + 1;
    }
    assert(que_des_chiffres(t));
    let mut v: u64 = 0;
    let mut i = debut;
    while i < fin
        invariant
            debut <= i <= fin <= s@.len(),
            t == s@.subrange(debut as int, fin as int),
            que_des_chiffres(t),
            v as int == valeur_chiffres(t.take(i - debut)),
            v <= borne,
            borne <= u32::MAX as u64 + 1,
        decreases fin - i,
    {
        let c = s[i];
        assert(est_chiffre(t[i - debut]));
        let d = (c as u32 - '0' as u32) as u64;
        assert(t.take(i + 1 - debut).drop_last() =~= t.take(i - debut));
        v = v * 10 + d;
        i = i + 1;
        if v > borne {
            proof {
                lemme_valeur_croissante(t, i - debut);
            }
            return None;
        }
    }
    assert(t.take(fin - debut) =~= t);
    Some(v)
}

/// `str::parse::<u32>` on the characters `s[debut..fin]`.
pub fn lire_u32(s: &Vec<char>, debut: usize, fin: usize) -> (r: Option<u32>)
    requires
        debut <= fin <= s@.len(),
    ensures
        r == u32_ecrit(s@.subrange(debut as int, fin as int)),
{
    let ghost t = s@.subrange(debut as int, fin as int);
    let signe = debut < fin && s[debut] == '+';
    let depart = if signe {
        debut + 1
    } else {
        debut
    };
    proof {
        if signe {
            assert(t[0] == '+');
            assert(s@.subrange(depart as int, fin as int) =~= t.drop_first());
        } else {
            assert(s@.subrange(depart as int, fin as int) =~= t);
        }
    }
    match lire_naturel(s, depart, fin, u32::MAX as u64) {
        Some(v) => Some(v as u32),
        None => None,
    }
}

/// `str::parse::<i32>` on the characters `s[debut..fin]`.
pub fn lire_i32(s: &Vec<char>, debut: usize, fin: usize) -> (r: Option<i32>)
    requires
        debut <= fin <= s@.len(),
    ensures
        r == i32_ecrit(s@.subrange(debut as int, fin as int)),
{
    let ghost t = s@.subrange(debut as int, fin as int);
    let negatif = debut < fin && s[debut] == '-';
    let signe = debut < fin && (s[debut] == '+' || s[debut] == '-');
    let depart = if signe {
        debut + 1
    } else {
        debut
    };
    proof {
        if signe {
            assert(t[0] == s@[debut as int]);
            assert(s@.subrange(depart as int, fin as int) =~= t.drop_first());
        } else {
            assert(s@.subrange(depart as int, fin as int) =~= t);
        }
    }
    if negatif {
        match lire_naturel(s, depart, fin, i32::MAX as u64 + 1) {
            Some(v) => {
                assert(v <= i32::MAX as u64 + 1);
                Some((-(v as i64)) as i32)
            },
            None => None,
        }
    } else {
        match lire_naturel(s, depart, fin, i32::MAX as u64) {
            Some(v) => Some(v as i32),
            None => None,
        }
    }
}

/// The ranges of the pieces of `s[debut..fin]` split on `sep`, in order.
pub fn decouper(s: &Vec<char>, debut: usize, fin: usize, sep: char) -> (r: Vec<(usize, usize)>)
    requires
        debut <= fin <= s@.len(),
    ensures
        tranches(s@, r@) == decoupe(s@.subrange(debut as int, fin as int), sep),
        forall|k: int|
            0 <= k < r@.len() ==> debut <= (#[trigger] r@[k]).0 <= r@[k].1 <= fin,
{
    let mut r: Vec<(usize, usize)> = Vec::new();
    let mut courant = debut;
    let mut i = debut;
    assert(s@.subrange(debut as int, debut as int) =~= Seq::<char>::empty());
    assert(tranches(s@, r@) =~= Seq::<Seq<char>>::empty());
    while i < fin
        invariant
            debut <= courant <= i <= fin <= s@.len(),
            forall|k: int| 0 <= k < r@.len() ==> debut <= (#[trigger] r@[k]).0 <= r@[k].1 <= i,
            decoupe(s@.subrange(debut as int, i as int), sep) == tranches(s@, r@).push(
                s@.subrange(courant as int, i as int),
            ),
        decreases fin - i,
    {
        let ghost avant = s@.subrange(debut as int, i as int);
        let ghost apres = s@.subrange(debut as int, i + 1);
        assert(apres.drop_last() =~= avant);
        assert(apres.last() == s@[i as int]);
        if s[i] == sep {
            let ghost r_avant = r@;
            r.push((courant, i));
            assert(r@.drop_last() =~= r_avant);
            assert(tranches(s@, r@) =~= tranches(s@, r_avant).push(
                s@.subrange(courant as int, i as int),
            ));
            courant = i + 1;
            assert(s@.subrange(courant as int, i + 1) =~= Seq::<char>::empty());
        } else {
            let ghost prec = tranches(s@, r@).push(s@.subrange(courant as int, i as int));
            assert(s@.subrange(courant as int, i as int).push(s@[i as int]) =~= s@.subrange(
                courant as int,
                i + 1,
            ));
            assert(prec.update(prec.len() - 1, prec.last().push(s@[i as int])) =~= tranches(
                s@,
                r@,
            ).push(s@.subrange(courant as int, i + 1)));
        }
        i = i + 1;
    }
    let ghost r_avant = r@;
    r.push((courant, fin));
    assert(r@.drop_last() =~= r_avant);
    assert(tranches(s@, r@) =~= tranches(s@, r_avant).push(
        s@.subrange(courant as int, fin as int),
    ));
    r
}

/// Whether `motif` occurs in `s` (`str::contains`).
pub fn contient_texte(s: &Vec<char>, motif: &Vec<char>) -> (r: bool)
    ensures
        r == contient(s@, motif@),
{
    let n = s.len();
    let m = motif.len();
    if m > n {
        assert forall|i: int| 0 <= i && i + motif@.len() <= s@.len() implies !(#[trigger] s@.subrange(
            i,
            i + motif@.len(),
        ) =~= motif@) by {}
        return false;
    }
    let mut i: usize = 0;
    while i <= n - m
        invariant
            n == s@.len(),
            m == motif@.len(),
            m <= n,
            i <= n - m + 1,
            forall|k: int| 0 <= k < i ==> !(#[trigger] s@.subrange(k, k + m) =~= motif@),
        decreases n - i,
    {
        let mut j: usize = 0;
        let mut egal = true;
        while j < m
            invariant
                n == s@.len(),
                m == motif@.len(),
                i + m <= n,
                j <= m,
                egal <==> forall|t: int| 0 <= t < j ==> s@[i + t] == motif@[t],
            decreases m - j,
        {
            if s[i + j] != motif[j] {
                egal = false;
            }
            j = j + 1;
        }
        if egal {
            assert(s@.subrange(i as int, i + m) =~= motif@);
            return true;
        }
        proof {
            if s@.subrange(i as int, i + m) =~= motif@ {
                let t = choose|t: int| 0 <= t < m && s@[i + t] != motif@[t];
                assert(s@.subrange(i as int, i + m)[t] == s@[i + t]);
            }
        }
        i = i + 1;
    }
    assert forall|k: int| 0 <= k && k + motif@.len() <= s@.len() implies !(#[trigger] s@.subrange(
        k,
        k + motif@.len(),
    ) =~= motif@) by {}
    false
}

} // verus!
