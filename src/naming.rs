use vstd::prelude::*;

use crate::script::push_char;
use crate::stamp::{stamp_text, Timestamp};

verus! {

/// The longest slug, in characters.
pub const SLUG_LEN: usize = 30;

/// What `str::to_lowercase` makes of `s`.
pub uninterp spec fn lower_of(s: Seq<char>) -> Seq<char>;

/// Relies on std's `str::to_lowercase`: the result depends on the
/// characters alone, and an empty string stays empty.
#[verifier::external_body]
fn lowercase(s: &str) -> (r: String)
    ensures
        r@ == lower_of(s@),
        s@.len() == 0 ==> r@.len() == 0,
{
    s.to_lowercase()
}

pub open spec fn underscored(c: char) -> char {
    if c == ' ' {
        '_'
    } else {
        c
    }
}

/// The slug of an already lower-cased description: spaces become
/// underscores, and only the first thirty characters are kept.
pub open spec fn slug_spec(lowered: Seq<char>) -> Seq<char> {
    let u = lowered.map_values(|c: char| underscored(c));
    if u.len() <= 30 {
        u
    } else {
        u.take(30)
    }
}

/// The slug of `lowered`, a description already in lower case.
pub fn slug_of_lowered(lowered: &str) -> (r: String)
    ensures
        r@ == slug_spec(lowered@),
{
    let n = lowered.unicode_len();
    let k: usize = if n <= SLUG_LEN { n } else { SLUG_LEN };
    let ghost u = lowered@.map_values(|c: char| underscored(c));
    let mut r = String::new();
    let mut i: usize = 0;
    while i < k
        invariant
            n == lowered@.len(),
            k <= n,
            k <= 30,
            i <= k,
            u == lowered@.map_values(|c: char| underscored(c)),
            r@ == u.take(i as int),
        decreases k - i,
    {
        let c = lowered.get_char(i);
        let d = if c == ' ' { '_' } else { c };
        push_char(&mut r, d);
        assert(r@ =~= u.take(i + 1));
        i = i + 1;
    }
    assert(r@ =~= slug_spec(lowered@));
    r
}

/// The slug of a migration's description: lower case, spaces turned into
/// underscores, at most thirty characters.
pub fn slug(description: &str) -> (r: String)
    ensures
        r@ == slug_spec(lower_of(description@)),
{
    let lowered = lowercase(description);
    slug_of_lowered(lowered.as_str())
}

/// The name of a new migration file created at `created` for
/// `description`: `<YYYYMMDDHHMMSS>_<slug>.sql`.
pub fn migration_file_name(created: &Timestamp, description: &str) -> (r: String)
    ensures
        r@ == stamp_text(created.fields()) + seq!['_'] + slug_spec(lower_of(description@))
            + ".sql"@,
{
    let mut name = created.to_stamp_string();
    let s = slug(description);
    name.append("_");
    name.append(s.as_str());
    name.append(".sql");
    proof {
        reveal_strlit("_");
    }
    name
}

/// The first lines of a new migration file: its description as an SQL
/// comment, then an empty line.
pub fn migration_header(description: &str) -> (r: String)
    ensures
        r@ == "-- "@ + description@ + "\n\n"@,
{
    String::from_str("-- ").concat(description).concat("\n\n")
}

} // verus!
