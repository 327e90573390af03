//! Small string helpers shared by the scanner and the comparators.

use vstd::prelude::*;

verus! {

/// Whether the string `a` spells exactly the literal `lit`.
pub fn str_is(a: &String, lit: &str) -> (r: bool)
    ensures
        r == (a@ == lit@),
{
    let owned: String = lit.to_owned();
    *a == owned
}

/// What `str::to_lowercase` returns: a function of the characters alone.
pub uninterp spec fn lower_of(s: Seq<char>) -> Seq<char>;

/// Relies on str::to_lowercase: the result depends on the characters alone,
/// the same on every machine and in every process.
#[verifier::external_body]
fn lowercase(s: &str) -> (r: String)
    ensures
        r@ == lower_of(s@),
        s@.len() == 0 ==> r@.len() == 0,
{
    s.to_lowercase()
}

/// The canonical form of a file extension: empty when the file has none,
/// otherwise a leading dot followed by the lowercased raw extension.
pub fn normalize_extension(raw: Option<&str>) -> (r: String)
    ensures
        raw is None ==> r@ == Seq::<char>::empty(),
        raw is Some ==> r@ == seq!['.'] + lower_of(raw->0@),
{
    match raw {
        None => String::new(),
        Some(s) => {
            proof {
                reveal_strlit(".");
                assert("."@ =~= seq!['.']);
            }
            let lowered = lowercase(s);
            let dotted = String::from_str(".");
            dotted.concat(lowered.as_str())
        },
    }
}

} // verus!
