//! The sizes of the tenants, sampled for the page that lists them.

use vstd::prelude::*;

verus! {

/// One look at a tenant: the length of its database file and the total of its
/// stored files, each of which may be unreadable.
#[derive(Debug)]
pub struct Look {
    pub id: String,
    pub file_len: Option<u64>,
    pub files_total: Option<i64>,
}

/// What a look found; nothing where either size could not be read.
pub open spec fn sampled(file_len: Option<u64>, files_total: Option<i64>) -> Option<(i64, i64)> {
    match (file_len, files_total) {
        (Some(n), Some(t)) => Some((n as i64, t)),
        _ => None,
    }
}

fn take_sample(file_len: Option<u64>, files_total: Option<i64>) -> (r: Option<(i64, i64)>)
    ensures
        r == sampled(file_len, files_total),
{
    match (file_len, files_total) {
        (Some(n), Some(t)) => Some((n as i64, t)),
        _ => None,
    }
}

/// The two sizes of a tenant, both zero where either could not be read.
pub fn sample_bytes(file_len: Option<u64>, files_total: Option<i64>) -> (r: (i64, i64))
    ensures
        r == match sampled(file_len, files_total) {
            Some(sizes) => sizes,
            None => (0i64, 0i64),
        },
{
    match take_sample(file_len, files_total) {
        Some(sizes) => sizes,
        None => (0, 0),
    }
}

/// A row that one round of sampling writes.
#[derive(Debug)]
pub struct Sample {
    pub id: String,
    pub db_bytes: i64,
    pub files_bytes: i64,
}

impl Sample {
    pub open spec fn view(&self) -> (Seq<char>, i64, i64) {
        (self.id@, self.db_bytes, self.files_bytes)
    }
}

/// The rows of one round over the first `n` looks, in order. A tenant that
/// could not be read is left out, so that it keeps its last sizes.
pub open spec fn round(looks: Seq<Look>, n: nat) -> Seq<(Seq<char>, i64, i64)>
    decreases n,
{
    if n == 0 {
        Seq::empty()
    } else {
        let before = round(looks, (n - 1) as nat);
        let look = looks[n - 1];
        match sampled(look.file_len, look.files_total) {
            Some((db, files)) => before.push((look.id@, db, files)),
            None => before,
        }
    }
}

/// The views of rows.
pub open spec fn samples_view(v: Seq<Sample>) -> Seq<(Seq<char>, i64, i64)> {
    v.map_values(|s: Sample| s@)
}

/// Turns the looks of one round into the rows that it writes.
pub fn sample_all(looks: &Vec<Look>) -> (r: Vec<Sample>)
    ensures
        samples_view(r@) == round(looks@, looks@.len()),
{
    let mut rows: Vec<Sample> = Vec::new();
    let mut i: usize = 0;
    assert(samples_view(rows@) =~= round(looks@, 0));
    while i < looks.len()
        invariant
            i <= looks@.len(),
            samples_view(rows@) == round(looks@, i as nat),
        decreases looks@.len() - i,
    {
        let look: &Look = &looks[i];
        if let Some((db_bytes, files_bytes)) = take_sample(look.file_len, look.files_total) {
            let ghost before = rows@;
            rows.push(Sample { id: look.id.clone(), db_bytes, files_bytes });
            assert(samples_view(rows@) =~= samples_view(before).push(rows@[before.len() as int]@));
        }
        i = i + 1;
    }
    rows
}

/// A round changes nothing for the tenants that could not be read: every row it
/// writes is of a tenant that was read, with the sizes that were read.
pub proof fn law_round_writes_what_was_read(looks: Seq<Look>, n: nat, k: int)
    requires
        n <= looks.len(),
        0 <= k < round(looks, n).len(),
    ensures
        exists|i: int|
            #![trigger looks[i]]
            0 <= i < n && looks[i].id@ == round(looks, n)[k].0 && sampled(
                looks[i].file_len,
                looks[i].files_total,
            ) == Some((round(looks, n)[k].1, round(looks, n)[k].2)),
    decreases n,
{
    let before = round(looks, (n - 1) as nat);
    if k < before.len() {
        law_round_writes_what_was_read(looks, (n - 1) as nat, k);
        let i = choose|i: int|
            #![trigger looks[i]]
            0 <= i < n - 1 && looks[i].id@ == before[k].0 && sampled(
                looks[i].file_len,
                looks[i].files_total,
            ) == Some((before[k].1, before[k].2));
        assert(round(looks, n)[k] == before[k]);
        assert(looks[i].id@ == round(looks, n)[k].0);
    } else {
        assert(looks[n - 1].id@ == round(looks, n)[k].0);
    }
}

/// The sampler runs unless its interval is zero.
pub fn sampler_runs(interval_secs: u64) -> (r: bool)
    ensures
        r == (interval_secs != 0),
{
    interval_secs != 0
}

/// Every tenant that could be read is written, with the length of its database and the
/// total of its files, each in its own place.
pub proof fn law_every_readable_tenant_is_written(looks: Seq<Look>, n: nat, i: int)
    requires
        n <= looks.len(),
        0 <= i < n,
        looks[i].file_len is Some,
        looks[i].files_total is Some,
    ensures
        round(looks, n).contains(
            (looks[i].id@, (looks[i].file_len->0) as i64, looks[i].files_total->0),
        ),
    decreases n,
{
    let before = round(looks, (n - 1) as nat);
    let all = round(looks, n);
    let row = (looks[i].id@, (looks[i].file_len->0) as i64, looks[i].files_total->0);
    if i == n - 1 {
        assert(all[before.len() as int] == row);
    } else {
        law_every_readable_tenant_is_written(looks, (n - 1) as nat, i);
        let k = choose|k: int| 0 <= k < before.len() && before[k] == row;
        assert(all[k] == row);
    }
}

} // verus!
