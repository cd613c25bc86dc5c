use vstd::prelude::*;
use rand::Rng;
use crate::paths::{join_spec, join_path};

verus! {

/// One entry of a directory listing.
pub struct ListedEntry {
    pub name: String,
    pub is_dir: bool,
}

/// Why a pool could not be resolved.
#[derive(PartialEq, Eq, Structural, Debug, Clone, Copy)]
pub enum PoolError {
    /// The pool directory holds no file.
    NotFound,
}

/// The paths of the files (not directories) of a listing of `dir`, in
/// listing order.
pub open spec fn candidates_spec(dir: Seq<char>, listing: Seq<ListedEntry>) -> Seq<Seq<char>>
    decreases listing.len(),
{
    if listing.len() == 0 {
        Seq::empty()
    } else {
        let rest = candidates_spec(dir, listing.drop_last());
        let e = listing.last();
        if e.is_dir {
            rest
        } else {
            rest.push(join_spec(dir, e.name@))
        }
    }
}

/// The paths of the files of the listing of `directory`, in listing order.
pub fn pool_candidates(directory: &str, listing: &Vec<ListedEntry>) -> (r: Vec<String>)
    ensures
        r@.len() == candidates_spec(directory@, listing@).len(),
        forall|k: int| 0 <= k < r@.len() ==> #[trigger] r@[k]@ == candidates_spec(directory@, listing@)[k],
{
    let mut out: Vec<String> = Vec::new();
    let mut i: usize = 0;
    while i < listing.len()
        invariant
            i <= listing@.len(),
            out@.len() == candidates_spec(directory@, listing@.take(i as int)).len(),
            forall|k: int| 0 <= k < out@.len() ==> #[trigger] out@[k]@ == candidates_spec(directory@, listing@.take(i as int))[k],
        decreases listing@.len() - i,
    {
        let e = &listing[i];
        proof {
            assert(listing@.take(i + 1).drop_last() =~= listing@.take(i as int));
            assert(listing@.take(i + 1).last() == listing@[i as int]);
        }
        if !e.is_dir {
            let p = join_path(directory, e.name.as_str());
            out.push(p);
        }
        i = i + 1;
    }
    proof {
        assert(listing@.take(i as int) =~= listing@);
    }
    out
}

/// Relies on rand's `Rng::gen_range` (rand 0.7) on the thread-local
/// generator: a value in `low..high`, which panics when `low >= high`.
#[verifier::external_body]
fn random_below(n: usize) -> (r: usize)
    requires
        n > 0,
    ensures
        r < n,
{
    rand::thread_rng().gen_range(0, n)
}

/// The candidate at `draw` modulo the number of candidates.
fn pick(c: Vec<String>, draw: usize) -> (r: String)
    requires
        c@.len() > 0,
    ensures
        r@ == c@[draw as int % c@.len() as int]@,
{
    let mut c = c;
    let n: usize = c.len();
    let k: usize = draw % n;
    c.swap_remove(k)
}

/// The file of the pool chosen by `draw`: the candidate at `draw` modulo
/// the number of candidates, or `NotFound` when the listing holds no file.
pub fn select_media(directory: &str, listing: &Vec<ListedEntry>, draw: usize) -> (r: Result<String, PoolError>)
    ensures
        ({
            let c = candidates_spec(directory@, listing@);
            match r {
                Ok(p) => c.len() > 0 && p@ == c[draw as int % c.len() as int],
                Err(e) => c.len() == 0 && e == PoolError::NotFound,
            }
        }),
{
    let c = pool_candidates(directory, listing);
    if c.len() == 0 {
        return Err(PoolError::NotFound);
    }
    Ok(pick(c, draw))
}

/// Draws one file of the pool `directory`, whose listing is `listing`, at
/// random: always one of its files, or `NotFound` when it holds none.
pub fn random_media_select(directory: &str, listing: &Vec<ListedEntry>) -> (r: Result<String, PoolError>)
    ensures
        ({
            let c = candidates_spec(directory@, listing@);
            match r {
                Ok(p) => exists|k: int| 0 <= k < c.len() && p@ == #[trigger] c[k],
                Err(e) => c.len() == 0 && e == PoolError::NotFound,
            }
        }),
{
    let c = pool_candidates(directory, listing);
    let n: usize = c.len();
    if n == 0 {
        return Err(PoolError::NotFound);
    }
    let draw = random_below(n);
    let p = pick(c, draw);
    proof {
        let k = draw as int % n as int;
        assert(p@ == candidates_spec(directory@, listing@)[k]);
    }
    Ok(p)
}

} // verus!
