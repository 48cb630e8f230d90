//! The art manifest names every asset and frame rate the front end uses; checking it
//! keeps asset names and frame timing out of guesswork.

use vstd::prelude::*;
use crate::text::same;

verus! {

/// Frames of a looping animation and its rate.
#[derive(Debug)]
pub struct Animation {
    pub frames: Vec<String>,
    pub fps: u16,
}

/// The parallax layers of the travel scene.
#[derive(Debug)]
pub struct Layers {
    pub far: Vec<String>,
    pub near: Vec<String>,
    pub actors: Vec<String>,
}

/// The hunting scene's sprites and rate.
#[derive(Debug)]
pub struct Hunting {
    pub animals: Vec<String>,
    pub crosshair: Vec<String>,
    pub fps: u16,
}

/// The rafting scene's sprites and rate.
#[derive(Debug)]
pub struct Rafting {
    pub raft: String,
    pub rocks: Vec<String>,
    pub fps: u16,
}

/// Every asset group and rate of the front end.
#[derive(Debug)]
pub struct Manifest {
    pub wagon: Animation,
    pub ox: Animation,
    pub terrain: Vec<String>,
    pub rivers: Vec<String>,
    pub forts: Vec<String>,
    pub landmarks: Vec<String>,
    pub layers: Layers,
    pub hunting: Hunting,
    pub rafting: Rafting,
    pub map: String,
    pub gathering: Vec<String>,
}

/// Why a manifest was rejected.
#[derive(Debug, Clone, PartialEq, Eq)]
pub enum ManifestError {
    /// A frame rate outside 1 to 60.
    InvalidRate(u16),
    /// An asset group with nothing in it.
    EmptyGroup,
    /// A name that no pixel asset has.
    UnknownAsset(String),
}

/// Some asset is called `name`.
pub open spec fn known(assets: Seq<String>, name: Seq<char>) -> bool {
    exists|i: int| 0 <= i < assets.len() && #[trigger] assets[i]@ == name
}

/// A group is usable: not empty, and every name in it is an asset.
pub open spec fn group_ok(assets: Seq<String>, group: Seq<String>) -> bool {
    group.len() > 0 && forall|k: int| 0 <= k < group.len() ==> known(assets, (#[trigger] group[k])@)
}

/// The asset groups of a manifest, in the order they are checked.
pub open spec fn groups(m: Manifest) -> Seq<Seq<String>> {
    seq![
        m.wagon.frames@, m.ox.frames@, m.terrain@, m.rivers@, m.forts@, m.landmarks@, m.layers.far@,
        m.layers.near@, m.layers.actors@, m.hunting.animals@, m.hunting.crosshair@, m.rafting.rocks@, m.gathering@,
    ]
}

/// A manifest is sound: its four rates lie in 1 to 60, every group is usable, and the map
/// and the raft are assets.
pub open spec fn manifest_ok(m: Manifest, assets: Seq<String>) -> bool {
    &&& 1 <= m.wagon.fps <= 60
    &&& 1 <= m.ox.fps <= 60
    &&& 1 <= m.hunting.fps <= 60
    &&& 1 <= m.rafting.fps <= 60
    &&& forall|g: int| 0 <= g < groups(m).len() ==> group_ok(assets, #[trigger] groups(m)[g])
    &&& known(assets, m.map@)
    &&& known(assets, m.rafting.raft@)
}

fn asset_known(assets: &Vec<String>, name: &str) -> (r: Result<(), ManifestError>)
    ensures
        r is Ok <==> known(assets@, name@),
{
    let mut i: usize = 0;
    while i < assets.len()
        invariant
            i <= assets@.len(),
            forall|j: int| 0 <= j < i ==> #[trigger] assets@[j]@ != name@,
        decreases assets@.len() - i,
    {
        if same(assets[i].as_str(), name) {
            return Ok(());
        }
        i = i + 1;
    }
    Err(ManifestError::UnknownAsset(name.to_owned()))
}

fn group_check(assets: &Vec<String>, group: &Vec<String>) -> (r: Result<(), ManifestError>)
    ensures
        r is Ok <==> group_ok(assets@, group@),
{
    if group.len() == 0 {
        return Err(ManifestError::EmptyGroup);
    }
    let mut k: usize = 0;
    while k < group.len()
        invariant
            k <= group@.len(),
            group@.len() > 0,
            forall|j: int| 0 <= j < k ==> known(assets@, (#[trigger] group@[j])@),
        decreases group@.len() - k,
    {
        asset_known(assets, group[k].as_str())?;
        k = k + 1;
    }
    Ok(())
}

fn rate_check(fps: u16) -> (r: Result<(), ManifestError>)
    ensures
        r is Ok <==> 1 <= fps <= 60,
{
    if 1 <= fps && fps <= 60 {
        Ok(())
    } else {
        Err(ManifestError::InvalidRate(fps))
    }
}

impl Manifest {
    /// Checks the manifest against the names of the pixel assets that exist: it is
    /// accepted exactly when it is sound.
    pub fn check(&self, assets: &Vec<String>) -> (r: Result<(), ManifestError>)
        ensures
            r is Ok <==> manifest_ok(*self, assets@),
    {
        rate_check(self.wagon.fps)?;
        rate_check(self.ox.fps)?;
        rate_check(self.hunting.fps)?;
        rate_check(self.rafting.fps)?;
        let ghost gs = groups(*self);
        group_check(assets, &self.wagon.frames)?;
        group_check(assets, &self.ox.frames)?;
        group_check(assets, &self.terrain)?;
        group_check(assets, &self.rivers)?;
        group_check(assets, &self.forts)?;
        group_check(assets, &self.landmarks)?;
        group_check(assets, &self.layers.far)?;
        group_check(assets, &self.layers.near)?;
        group_check(assets, &self.layers.actors)?;
        group_check(assets, &self.hunting.animals)?;
        group_check(assets, &self.hunting.crosshair)?;
        group_check(assets, &self.rafting.rocks)?;
        group_check(assets, &self.gathering)?;
        assert forall|g: int| 0 <= g < gs.len() implies group_ok(assets@, #[trigger] gs[g]) by {
            assert(gs[0] == self.wagon.frames@);
        }
        asset_known(assets, self.map.as_str())?;
        asset_known(assets, self.rafting.raft.as_str())?;
        Ok(())
    }
}

} // verus!
