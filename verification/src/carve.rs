//! Narrowing a picture to a target width, one seam at a time.

use vstd::prelude::*;
use crate::energy::{compute_energy, energy_of, lemma_energy_of_is_grid};
use crate::error::CarveError;
use crate::grid::{grid_height, grid_width, is_grid};
use crate::raster::{Pixel, Raster};
use crate::remove::{lemma_without_seam, remove_seam, without_seam};
use crate::seam::{find_seam, lemma_seam_of_is_seam, seam_of};
use crate::target::{is_valid_target, seams_to_remove};

verus! {

/// The picture after one step: its energy map is computed, the cheapest seam
/// through that map is found, and that seam is taken out.
pub open spec fn step_of(img: Seq<Seq<Pixel>>) -> Seq<Seq<Pixel>> {
    without_seam(img, seam_of(energy_of(img)))
}

/// The picture after `steps` steps, each one working on what the step
/// before it left.
pub open spec fn carved(img: Seq<Seq<Pixel>>, steps: nat) -> Seq<Seq<Pixel>>
    decreases steps,
{
    if steps == 0 {
        img
    } else {
        step_of(carved(img, (steps - 1) as nat))
    }
}

/// One step makes a picture of two or more columns one column narrower and
/// leaves its height alone.
pub proof fn lemma_step_of(img: Seq<Seq<Pixel>>)
    requires
        is_grid(img),
        grid_width(img) >= 2,
    ensures
        is_grid(step_of(img)),
        grid_width(step_of(img)) == grid_width(img) - 1,
        grid_height(step_of(img)) == grid_height(img),
{
    lemma_energy_of_is_grid(img);
    lemma_seam_of_is_seam(energy_of(img));
    lemma_without_seam(img, seam_of(energy_of(img)));
}

/// Carving `steps` seams out of a picture that is wider than `steps` columns
/// leaves a picture that is exactly `steps` columns narrower and as high as
/// before.
pub proof fn lemma_carved_dimensions(img: Seq<Seq<Pixel>>, steps: nat)
    requires
        is_grid(img),
        steps < grid_width(img),
    ensures
        is_grid(carved(img, steps)),
        grid_width(carved(img, steps)) == grid_width(img) - steps,
        grid_height(carved(img, steps)) == grid_height(img),
    decreases steps,
{
    if steps > 0 {
        lemma_carved_dimensions(img, (steps - 1) as nat);
        lemma_step_of(carved(img, (steps - 1) as nat));
    }
}

/// Carving to a width one less than the present one is a single step.
pub proof fn lemma_carved_once(img: Seq<Seq<Pixel>>)
    ensures
        carved(img, 1) == step_of(img),
{
    assert(carved(img, 0) == img);
}

/// Carving is a function of the picture and the number of steps: equal
/// pictures carved by equally many steps give equal pictures.
pub proof fn lemma_carved_is_deterministic(
    first: Seq<Seq<Pixel>>,
    second: Seq<Seq<Pixel>>,
    steps: nat,
)
    requires
        first == second,
    ensures
        carved(first, steps) == carved(second, steps),
{
}

/// Performs one step on `image`: scores its pixels, finds the cheapest seam
/// and removes it.
pub fn carve_step(image: &Raster) -> (narrowed: Raster)
    requires
        grid_width(image@) >= 2,
    ensures
        narrowed@ == step_of(image@),
        is_grid(narrowed@),
        grid_width(narrowed@) == grid_width(image@) - 1,
        grid_height(narrowed@) == grid_height(image@),
{
    let energy = compute_energy(image);
    let seam = find_seam(&energy);
    remove_seam(image, seam.as_slice())
}

/// Narrows `image` to `target_width` columns by carving out one seam after
/// another; the number of steps is the difference between the two widths.
pub fn seam_carve(image: &Raster, target_width: usize) -> (result: Raster)
    requires
        is_valid_target(grid_width(image@), target_width as nat),
    ensures
        result@ == carved(image@, (grid_width(image@) - target_width) as nat),
        is_grid(result@),
        grid_width(result@) == target_width,
        grid_height(result@) == grid_height(image@),
{
    let seams_to_remove = image.width() - target_width;
    let mut current = carve_step(image);
    let mut done: usize = 1;
    proof {
        lemma_carved_once(image@);
    }
    while done < seams_to_remove
        invariant
            1 <= done <= seams_to_remove,
            seams_to_remove == grid_width(image@) - target_width,
            0 < target_width,
            current@ == carved(image@, done as nat),
            is_grid(current@),
            grid_width(current@) == grid_width(image@) - done,
            grid_height(current@) == grid_height(image@),
        decreases seams_to_remove - done,
    {
        current = carve_step(&current);
        done += 1;
    }
    current
}

/// Narrows `image` to `target_width` columns, or turns the target down
/// without touching the picture.
pub fn checked_seam_carve(image: &Raster, target_width: usize) -> (result: Result<
    Raster,
    CarveError,
>)
    ensures
        result is Ok <==> is_valid_target(grid_width(image@), target_width as nat),
        result matches Ok(narrowed) ==> narrowed@ == carved(
            image@,
            (grid_width(image@) - target_width) as nat,
        ) && grid_width(narrowed@) == target_width,
        result matches Err(e) ==> e == CarveError::InvalidTarget,
{
    match seams_to_remove(image.width(), target_width) {
        Ok(_) => Ok(seam_carve(image, target_width)),
        Err(e) => Err(e),
    }
}

/// What a `Carver` holds: the picture that the job started from, the
/// picture as it stands, the number of steps that are still to do, and the
/// number of steps done.
pub struct CarverView {
    pub start: Seq<Seq<Pixel>>,
    pub picture: Seq<Seq<Pixel>>,
    pub remaining: nat,
    pub completed: nat,
}

/// A carving job that is driven one step at a time, so that the caller can
/// report progress between steps. It is running while steps remain and done
/// when none does. At every moment the picture is the one that the job
/// started from, carved by the number of steps done.
pub struct Carver {
    current: Raster,
    remaining: usize,
    completed: usize,
    start: Ghost<Seq<Seq<Pixel>>>,
}

impl View for Carver {
    type V = CarverView;

    closed spec fn view(&self) -> CarverView {
        CarverView {
            start: self.start@,
            picture: self.current@,
            remaining: self.remaining as nat,
            completed: self.completed as nat,
        }
    }
}

impl Carver {
    #[verifier::type_invariant]
    spec fn well_formed(&self) -> bool {
        &&& is_grid(self.current@)
        &&& self.remaining < grid_width(self.current@)
        &&& self.completed + self.remaining <= usize::MAX
        &&& self.current@ == carved(self.start@, self.completed as nat)
    }

    /// Starts a job that narrows `image` to `target_width` columns. The job
    /// is accepted if and only if the target is positive and less than the
    /// width of the picture.
    pub fn new(image: Raster, target_width: usize) -> (job: Result<Carver, CarveError>)
        ensures
            job is Ok <==> is_valid_target(grid_width(image@), target_width as nat),
            job matches Ok(carver) ==> carver@ == (CarverView {
                start: image@,
                picture: image@,
                remaining: (grid_width(image@) - target_width) as nat,
                completed: 0,
            }),
            job matches Err(e) ==> e == CarveError::InvalidTarget,
    {
        match seams_to_remove(image.width(), target_width) {
            Ok(remaining) => {
                let start = Ghost(image@);
                Ok(Carver { current: image, remaining, completed: 0, start })
            },
            Err(e) => Err(e),
        }
    }

    /// Number of steps that are still to do.
    pub fn remaining(&self) -> (n: usize)
        ensures
            n == self@.remaining,
    {
        self.remaining
    }

    /// Number of steps done so far.
    pub fn completed(&self) -> (n: usize)
        ensures
            n == self@.completed,
    {
        self.completed
    }

    /// Whether the picture has reached the target width.
    pub fn is_done(&self) -> (done: bool)
        ensures
            done == (self@.remaining == 0),
    {
        self.remaining == 0
    }

    /// The picture as it stands.
    pub fn picture(&self) -> (image: &Raster)
        ensures
            image@ == self@.picture,
            image@ == carved(self@.start, self@.completed),
            is_grid(image@),
            self@.remaining < grid_width(image@),
    {
        proof {
            use_type_invariant(self);
        }
        &self.current
    }

    /// Performs the next step, if one remains: the cheapest seam of the
    /// picture is removed, and one step moves from the remaining to the
    /// completed. Returns whether a step was performed; a job that is done
    /// stays as it is.
    pub fn step(&mut self) -> (advanced: bool)
        ensures
            advanced == (old(self)@.remaining > 0),
            advanced ==> final(self)@ == (CarverView {
                start: old(self)@.start,
                picture: step_of(old(self)@.picture),
                remaining: (old(self)@.remaining - 1) as nat,
                completed: old(self)@.completed + 1,
            }),
            !advanced ==> final(self)@ == old(self)@,
    {
        proof {
            use_type_invariant(&*self);
        }
        if self.remaining == 0 {
            return false;
        }
        let narrowed = carve_step(&self.current);
        *self = Carver {
            current: narrowed,
            remaining: self.remaining - 1,
            completed: self.completed + 1,
            start: self.start,
        };
        true
    }

    /// Ends the job and hands out the picture as it stands: the picture that
    /// the job started from, carved by the number of steps done.
    pub fn finish(self) -> (image: Raster)
        ensures
            image@ == self@.picture,
            image@ == carved(self@.start, self@.completed),
    {
        proof {
            use_type_invariant(&self);
        }
        self.current
    }
}

} // verus!
