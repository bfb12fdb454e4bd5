//! Metadata of generated seeds: when each seed was produced relative to the
//! session start, and the cumulative branch coverage measured with it. The
//! table serializes to one row per seed; reading and writing the file is
//! the caller's work.

use vstd::prelude::*;

verus! {

/// One seed's metadata row. The duration is carried in milliseconds and
/// the coverage fraction in parts per million.
pub struct SeedMeta {
    /// Where the seed's source lives.
    pub seed_path: String,
    /// Milliseconds between session start and this seed's generation.
    pub duration_since_start_millis: u64,
    /// Cumulative branch coverage at generation time, if measured.
    pub cumulative_branch_coverage: Option<u32>,
}

/// The growing table of seed metadata, with the session start it is
/// relative to. A table loaded back from disk has no start time and can no
/// longer grow.
pub struct SeedMetas {
    /// Session start in milliseconds, absent for a table read from disk.
    pub start_time_millis: Option<u64>,
    /// One row per generated seed.
    pub seed_metas: Vec<SeedMeta>,
}

impl SeedMetas {
    /// An empty table anchored at the given session start.
    pub fn new(start_time_millis: u64) -> (r: SeedMetas)
        ensures
            r.start_time_millis == Some(start_time_millis),
            r.seed_metas@ =~= Seq::<SeedMeta>::empty(),
    {
        SeedMetas { start_time_millis: Some(start_time_millis), seed_metas: Vec::new() }
    }

    /// A table of already-recorded rows, as loaded from disk: no start
    /// time, so nothing further can be added.
    pub fn from_rows(seed_metas: Vec<SeedMeta>) -> (r: SeedMetas)
        ensures
            r.start_time_millis is None,
            r.seed_metas == seed_metas,
    {
        SeedMetas { start_time_millis: None, seed_metas }
    }

    /// Record one generated seed. Fails on a table without a start time;
    /// otherwise appends a row whose duration is measured from the session
    /// start.
    pub fn add(
        &mut self,
        seed_path: &str,
        generation_time_millis: u64,
        branch_coverage: Option<u32>,
    ) -> (r: Result<(), String>)
        requires
            old(self).start_time_millis is Some ==> generation_time_millis >= old(
                self,
            ).start_time_millis.unwrap(),
        ensures
            match old(self).start_time_millis {
                None => {
                    &&& r is Err
                    &&& *final(self) == *old(self)
                },
                Some(start) => {
                    &&& r is Ok
                    &&& final(self).start_time_millis == old(self).start_time_millis
                    &&& final(self).seed_metas.len() == old(self).seed_metas.len() + 1
                    &&& final(self).seed_metas@.drop_last() == old(self).seed_metas@
                    &&& final(self).seed_metas@.last().seed_path@ == seed_path@
                    &&& final(self).seed_metas@.last().duration_since_start_millis
                        == generation_time_millis - start
                    &&& final(self).seed_metas@.last().cumulative_branch_coverage
                        == branch_coverage
                },
            },
    {
        let start: u64 = match &self.start_time_millis {
            Some(s) => *s,
            None => {
                return Err(
                    "To add new seeds with this method, SeedMetas must be initialized with a start time".to_owned(),
                );
            },
        };
        let meta = SeedMeta {
            seed_path: seed_path.to_owned(),
            duration_since_start_millis: generation_time_millis - start,
            cumulative_branch_coverage: branch_coverage,
        };
        self.seed_metas.push(meta);
        proof {
            assert(final(self).seed_metas@.drop_last() =~= old(self).seed_metas@);
        }
        Ok(())
    }

    /// How many rows the table holds.
    pub fn len(&self) -> (r: usize)
        ensures
            r == self.seed_metas.len(),
    {
        self.seed_metas.len()
    }
}

} // verus!
