//! Picking a bundled default image when no custom image was supplied.

use vstd::prelude::*;

verus! {

/// Relies on `rand::Rng::gen_range` over `0..n`: a uniformly drawn value
/// below `n`; nothing else is promised of the outcome.
#[verifier::external_body]
fn random_below(n: usize) -> (r: usize)
    requires
        n > 0,
    ensures
        r < n,
{
    rand::Rng::gen_range(&mut rand::thread_rng(), 0..n)
}

/// One of the configured default images, chosen at random.
pub fn get_rand_image(default_images: &Vec<Vec<u8>>) -> (r: Vec<u8>)
    requires
        default_images.len() > 0,
    ensures
        exists|i: int| 0 <= i < default_images.len() && r@ == default_images[i]@,
{
    let idx = random_below(default_images.len());
    let picked = default_images[idx].clone();
    proof {
        assert(picked@ =~= default_images[idx as int]@);
    }
    picked
}

} // verus!
