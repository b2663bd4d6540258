use vstd::prelude::*;

verus! {

/// The name of the manifest file that marks a project root.
pub const MANIFEST_NAME: &'static str = "plz.toml";

/// What the search does after probing one directory.
#[derive(Debug)]
pub enum Probe {
    /// The directory holds the manifest: it is the project root.
    Found,
    /// No manifest here: the parent directory is probed next.
    Climb,
    /// No manifest here, and the root of the file system has been probed.
    Exhausted,
}

/// The project root that the search finds, starting at the directory `dir`
/// (its components below the file-system root), where `present` holds the
/// directories that hold a manifest as a regular file.
pub open spec fn search<C>(dir: Seq<C>, present: Set<Seq<C>>) -> Option<Seq<C>>
    decreases dir.len(),
{
    if present.contains(dir) {
        Some(dir)
    } else if dir.len() == 0 {
        None
    } else {
        search(dir.drop_last(), present)
    }
}

/// A directory `a` that holds the manifest, an ancestor of `start` or `start`
/// itself, with no manifest in the directories between them, is the root that
/// the search finds.
pub proof fn lemma_nearest_manifest<C>(start: Seq<C>, a: nat, present: Set<Seq<C>>)
    requires
        a <= start.len(),
        present.contains(start.take(a as int)),
        forall|d: int| a < d <= start.len() ==> !present.contains(#[trigger] start.take(d)),
    ensures
        search(start, present) == Some(start.take(a as int)),
    decreases start.len(),
{
    if start.len() == a {
        assert(start.take(a as int) =~= start);
    } else {
        assert(start.take(start.len() as int) =~= start);
        let parent = start.drop_last();
        assert forall|d: int| a < d <= parent.len() implies !present.contains(#[trigger] parent.take(d)) by {
            assert(parent.take(d) =~= start.take(d));
        };
        assert(parent.take(a as int) =~= start.take(a as int));
        lemma_nearest_manifest(parent, a, present);
    }
}

/// A directory outside `present` and all its ancestors lead the search to no root.
pub proof fn lemma_no_manifest<C>(start: Seq<C>, present: Set<Seq<C>>)
    requires
        forall|d: int| 0 <= d <= start.len() ==> !present.contains(#[trigger] start.take(d)),
    ensures
        search(start, present) is None,
    decreases start.len(),
{
    assert(start.take(start.len() as int) =~= start);
    if start.len() > 0 {
        let parent = start.drop_last();
        assert forall|d: int| 0 <= d <= parent.len() implies !present.contains(#[trigger] parent.take(d)) by {
            assert(parent.take(d) =~= start.take(d));
        };
        lemma_no_manifest(parent, present);
    }
}

/// The upward search for the manifest: the directory to probe next, as its
/// components below the file-system root.
pub struct Locator<C> {
    dir: Vec<C>,
}

impl<C> Locator<C> {
    /// The directory to probe next.
    pub closed spec fn dir(&self) -> Seq<C> {
        self.dir@
    }

    /// Starts the search at `start`.
    pub fn new(start: Vec<C>) -> (l: Locator<C>)
        ensures
            l.dir() == start@,
    {
        Locator { dir: start }
    }

    /// The directory to probe next.
    pub fn components(&self) -> (r: &Vec<C>)
        ensures
            r@ == self.dir(),
    {
        &self.dir
    }

    /// Ends the search, giving up the directory to probe next.
    pub fn into_components(self) -> (r: Vec<C>)
        ensures
            r@ == self.dir(),
    {
        self.dir
    }

    /// Takes whether the directory to probe holds the manifest as a regular
    /// file, and moves to its parent where it does not.
    pub fn advance(&mut self, is_file: bool) -> (r: Probe)
        ensures
            is_file ==> r is Found && final(self).dir() == old(self).dir(),
            !is_file && old(self).dir().len() > 0 ==> r is Climb && final(self).dir() == old(self).dir().drop_last(),
            !is_file && old(self).dir().len() == 0 ==> r is Exhausted && final(self).dir() == old(self).dir(),
    {
        if is_file {
            Probe::Found
        } else if self.dir.len() == 0 {
            Probe::Exhausted
        } else {
            let _ = self.dir.pop();
            proof {
                assert(self.dir@ =~= old(self).dir@.drop_last());
            }
            Probe::Climb
        }
    }

    /// Each step of the search agrees with `search`: where the probe answers
    /// as `present` says, the root that the search finds from here is this
    /// directory, the one that it finds from the parent, or none.
    pub proof fn lemma_step(old_dir: Seq<C>, new_dir: Seq<C>, is_file: bool, r: Probe, present: Set<Seq<C>>)
        requires
            is_file == present.contains(old_dir),
            is_file ==> r is Found && new_dir == old_dir,
            !is_file && old_dir.len() > 0 ==> r is Climb && new_dir == old_dir.drop_last(),
            !is_file && old_dir.len() == 0 ==> r is Exhausted && new_dir == old_dir,
        ensures
            r is Found ==> search(old_dir, present) == Some(old_dir),
            r is Climb ==> search(old_dir, present) == search(new_dir, present),
            r is Exhausted ==> search(old_dir, present) is None,
    {
    }
}

} // verus!
