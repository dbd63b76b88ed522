//! Multi-account resolution and acquisition pipeline for a remote
//! project/sample/file store.
//!
//! The crate aggregates project listings fetched under several independent
//! credentials, resolves human-supplied project names against the merged
//! view, gates file discovery on sample completion, and verifies downloaded
//! artifacts by size and by a multipart content tag.

pub mod acquire;
pub mod api;
pub mod etag;
pub mod gate;
pub mod util;

use vstd::prelude::*;

verus! {

/// The failures the pipeline distinguishes. Transport details stay with
/// the caller that performed the request; the variants carry only what the
/// post-run report and the retry hints need.
#[derive(Debug)]
pub enum Error {
    /// The transport or the remote service failed.
    Transport,
    /// A response did not match the expected shape.
    Schema,
    /// No record matched the query; carries ranked name suggestions.
    NotFound { suggestions: Vec<String> },
    /// Samples of the project are still being processed remotely.
    Incomplete { still_processing: usize },
    /// The undetermined-reads sample of a project could not be found.
    UndeterminedMissing,
    /// No files were selected for download.
    EmptySelection,
    /// A downloaded artifact's byte count differs from the declared size.
    SizeMismatch { declared: i64, actual: usize },
    /// A downloaded artifact's content tag differs from the declared tag.
    ChecksumMismatch,
    /// A content tag could not be parsed or recomputed.
    InvalidTag,
}

/// One configured credential: an account identifier together with the
/// bearer token used for every request made on that account's behalf.
pub struct Account {
    pub id: String,
    pub token: String,
}

/// Spec-level image of an [`Account`].
pub ghost struct AccountView {
    pub id: Seq<char>,
    pub token: Seq<char>,
}

impl View for Account {
    type V = AccountView;

    open spec fn view(&self) -> AccountView {
        AccountView { id: self.id@, token: self.token@ }
    }
}

/// The outcome of one account's project listing: the page it returned, or
/// nothing if the listing failed. A failed listing is excluded from the
/// merged view and must never abort the other accounts' listings.
pub struct AccountListing {
    pub account_id: String,
    pub response: Option<api::ProjectResponse>,
}

/// Spec-level image of an [`AccountListing`].
pub ghost struct AccountListingView {
    pub account_id: Seq<char>,
    pub items: Option<Seq<api::ProjectRecordView>>,
}

impl View for AccountListing {
    type V = AccountListingView;

    open spec fn view(&self) -> AccountListingView {
        AccountListingView {
            account_id: self.account_id@,
            items: match self.response {
                Some(r) => Some(r.items@.map_values(|rec: api::ProjectRecord| rec@)),
                None => None,
            },
        }
    }
}

/// What one account contributes to the merged project list: its listed
/// records tagged with its id, or nothing if its listing failed.
pub open spec fn listing_contribution(l: AccountListingView) -> Seq<api::ProjectView> {
    match l.items {
        Some(items) => items.map_values(|rec: api::ProjectRecordView| api::tag_project(rec, l.account_id)),
        None => Seq::empty(),
    }
}

/// The merged project view over a sequence of per-account listings: the
/// concatenation of every successful listing's tagged records, in listing
/// order. Failed listings contribute nothing.
pub open spec fn aggregated(listings: Seq<AccountListingView>) -> Seq<api::ProjectView>
    decreases listings.len(),
{
    if listings.len() == 0 {
        Seq::empty()
    } else {
        aggregated(listings.drop_last()) + listing_contribution(listings.last())
    }
}

/// The client that fans requests out over every configured account.
/// Tokens are looked up by account id and never substituted: a project
/// fetched under one account is only ever operated on with that account's
/// token.
pub struct MultiApi {
    pub accounts: Vec<Account>,
}

impl MultiApi {
    pub fn new(accounts: Vec<Account>) -> (r: MultiApi)
        ensures
            r.accounts == accounts,
    {
        MultiApi { accounts }
    }

    /// The token of some configured account with the given id, or `None`
    /// when no account matches; a caller must fail rather than fall back
    /// to another account's token.
    pub fn token_for(&self, account_id: &str) -> (r: Option<&String>)
        ensures
            match r {
                Some(t) => exists|i: int|
                    0 <= i < self.accounts@.len() && self.accounts@[i]@.id == account_id@
                        && t@ == self.accounts@[i]@.token && (forall|j: int|
                        0 <= j < i ==> self.accounts@[j]@.id != account_id@),
                None => forall|i: int|
                    0 <= i < self.accounts@.len() ==> self.accounts@[i]@.id != account_id@,
            },
    {
        let n = self.accounts.len();
        let mut i: usize = 0;
        let query: String = account_id.to_owned();
        while i < n
            invariant
                n == self.accounts@.len(),
                i <= n,
                query@ == account_id@,
                forall|j: int| 0 <= j < i ==> self.accounts@[j]@.id != account_id@,
            decreases n - i,
        {
            if self.accounts[i].id == query {
                return Some(&self.accounts[i].token);
            }
            i += 1;
        }
        None
    }
}

/// Merge per-account listing outcomes into one project list. Every record
/// of every successful listing appears exactly once, tagged with the id of
/// the account that fetched it; failed listings are skipped and cannot
/// corrupt the merged result.
pub fn aggregate_projects(listings: Vec<AccountListing>) -> (r: Vec<api::Project>)
    ensures
        r@.map_values(|p: api::Project| p@) == aggregated(
            listings@.map_values(|l: AccountListing| l@),
        ),
{
    let mut r: Vec<api::Project> = Vec::new();
    let mut rest = listings;
    let ghost all = rest@.map_values(|l: AccountListing| l@);
    proof {
        assert(all.skip(0) =~= all);
        assert(all.take(0) =~= Seq::<AccountListingView>::empty());
    }
    while rest.len() > 0
        invariant
            rest@.len() <= all.len(),
            rest@.map_values(|l: AccountListing| l@) == all.skip(all.len() - rest@.len()),
            r@.map_values(|p: api::Project| p@) == aggregated(
                all.take(all.len() - rest@.len()),
            ),
        decreases rest@.len(),
    {
        let ghost k = all.len() - rest@.len();
        let ghost before = r@.map_values(|p: api::Project| p@);
        let ghost rest_before = rest@;
        let listing = rest.remove(0);
        proof {
            assert(rest_before.map_values(|l: AccountListing| l@)[0] == all.skip(k as int)[0]);
            assert(listing@ == all[k as int]);
            assert(rest@ =~= rest_before.skip(1));
            assert forall|j: int| 0 <= j < rest@.len() implies rest@.map_values(
                |l: AccountListing| l@,
            )[j] == #[trigger] all.skip(k as int + 1)[j] by {
                assert(rest@[j] == rest_before[j + 1]);
                assert(rest_before.map_values(|l: AccountListing| l@)[j + 1] == all.skip(
                    k as int,
                )[j + 1]);
            }
            assert(rest@.map_values(|l: AccountListing| l@) =~= all.skip(k as int + 1));
        }
        match listing.response {
            Some(response) => {
                let mut tagged = response.projects_as_user(listing.account_id.as_str());
                proof {
                    assert(tagged@.map_values(|p: api::Project| p@) =~= listing_contribution(
                        all[k as int],
                    ));
                }
                r.append(&mut tagged);
            },
            None => {},
        }
        proof {
            lemma_aggregated_push(all.take(k as int), all[k as int]);
            assert(all.take(k as int + 1) =~= all.take(k as int).push(all[k as int]));
            assert(r@.map_values(|p: api::Project| p@) =~= before + listing_contribution(
                all[k as int],
            ));
        }
    }
    proof {
        assert(all.take(all.len() as int) =~= all);
    }
    r
}

/// Appending one listing extends the merged view by exactly that
/// listing's contribution.
proof fn lemma_aggregated_push(listings: Seq<AccountListingView>, l: AccountListingView)
    ensures
        aggregated(listings.push(l)) == aggregated(listings) + listing_contribution(l),
{
    assert(listings.push(l).drop_last() =~= listings);
    assert(listings.push(l).last() == l);
}

/// Whether a sample is an undetermined-reads candidate for a project: a
/// rerun ties the sample back to the project through its experiment
/// name, sometimes with stray surrounding whitespace.
pub open spec fn matches_project_experiment(s: api::SampleView, project_name: Seq<char>) -> bool {
    match s.experiment_name {
        Some(e) => e == project_name || util::trimmed_of(e) == project_name,
        None => false,
    }
}

/// The positions of the undetermined-reads candidates for a project, in
/// ascending order.
pub open spec fn undetermined_indices(
    samples: Seq<api::SampleView>,
    project_name: Seq<char>,
) -> Seq<int>
    decreases samples.len(),
{
    if samples.len() == 0 {
        Seq::empty()
    } else if matches_project_experiment(samples.last(), project_name) {
        undetermined_indices(samples.drop_last(), project_name).push(samples.len() - 1)
    } else {
        undetermined_indices(samples.drop_last(), project_name)
    }
}

/// Find the undetermined-reads candidates for a project among the
/// samples of its "Unindexed Reads" container: those whose experiment
/// name equals the project name, exactly or after trimming. No
/// candidate means the sample cannot be found; several mean a rerun and
/// demand explicit disambiguation.
pub fn undetermined_candidates(samples: &Vec<api::Sample>, project_name: &str) -> (r: Vec<
    usize,
>)
    ensures
        r@.map_values(|u: usize| u as int) == undetermined_indices(
            samples@.map_values(|s: api::Sample| s@),
            project_name@,
        ),
        forall|j: int| 0 <= j < r@.len() ==> #[trigger] r@[j] < samples@.len(),
{
    let ghost all = samples@.map_values(|s: api::Sample| s@);
    let name_owned: String = project_name.to_owned();
    let mut r: Vec<usize> = Vec::new();
    let n = samples.len();
    let mut i: usize = 0;
    proof {
        assert(all.take(0) =~= Seq::<api::SampleView>::empty());
    }
    while i < n
        invariant
            n == samples@.len(),
            i <= n,
            all == samples@.map_values(|s: api::Sample| s@),
            name_owned@ == project_name@,
            r@.map_values(|u: usize| u as int) == undetermined_indices(
                all.take(i as int),
                project_name@,
            ),
            forall|j: int| 0 <= j < r@.len() ==> #[trigger] r@[j] < i,
        decreases n - i,
    {
        let sample = &samples[i];
        let matched = match &sample.experiment_name {
            Some(e) => {
                if *e == name_owned {
                    true
                } else {
                    let trimmed = util::trim_str(e.as_str());
                    trimmed.to_owned() == name_owned
                }
            },
            None => false,
        };
        proof {
            assert(sample@ == all[i as int]);
            assert(matched == matches_project_experiment(all[i as int], project_name@));
        }
        if matched {
            r.push(i);
        }
        i += 1;
        proof {
            let taken = all.take(i as int);
            assert(taken.drop_last() =~= all.take(i - 1));
            assert(taken.last() == all[i - 1]);
            assert(r@.map_values(|u: usize| u as int) =~= undetermined_indices(
                taken,
                project_name@,
            ));
        }
    }
    proof {
        assert(all.take(n as int) =~= all);
    }
    r
}

/// The items of several file-listing pages, concatenated in page order.
pub open spec fn concat_file_items(pages: Seq<Seq<api::DataFile>>) -> Seq<api::DataFile>
    decreases pages.len(),
{
    if pages.len() == 0 {
        Seq::empty()
    } else {
        concat_file_items(pages.drop_last()) + pages.last()
    }
}

/// Merge the per-sample file listings of a project into one file set,
/// in listing order. Discovery is all-or-nothing: the caller hands this
/// function only a complete set of successful listings.
pub fn merge_file_lists(responses: Vec<api::FileResponse>) -> (r: Vec<api::DataFile>)
    ensures
        r@ == concat_file_items(
            responses@.map_values(|fr: api::FileResponse| fr.items@),
        ),
{
    let mut r: Vec<api::DataFile> = Vec::new();
    let mut rest = responses;
    let ghost all = rest@.map_values(|fr: api::FileResponse| fr.items@);
    proof {
        assert(all.skip(0) =~= all);
        assert(all.take(0) =~= Seq::<Seq<api::DataFile>>::empty());
    }
    while rest.len() > 0
        invariant
            rest@.len() <= all.len(),
            rest@.map_values(|fr: api::FileResponse| fr.items@) == all.skip(
                all.len() - rest@.len(),
            ),
            r@ == concat_file_items(all.take(all.len() - rest@.len())),
        decreases rest@.len(),
    {
        let ghost k = all.len() - rest@.len();
        let ghost rest_before = rest@;
        let mut response = rest.remove(0);
        proof {
            assert(rest_before.map_values(|fr: api::FileResponse| fr.items@)[0] == all.skip(
                k as int,
            )[0]);
            assert(response.items@ == all[k as int]);
            assert(rest@ =~= rest_before.skip(1));
            assert forall|j: int| 0 <= j < rest@.len() implies rest@.map_values(
                |fr: api::FileResponse| fr.items@,
            )[j] == #[trigger] all.skip(k as int + 1)[j] by {
                assert(rest@[j] == rest_before[j + 1]);
                assert(rest_before.map_values(|fr: api::FileResponse| fr.items@)[j + 1]
                    == all.skip(k as int)[j + 1]);
            }
            assert(rest@.map_values(|fr: api::FileResponse| fr.items@) =~= all.skip(
                k as int + 1,
            ));
        }
        r.append(&mut response.items);
        proof {
            let taken = all.take(k as int + 1);
            assert(taken.drop_last() =~= all.take(k as int));
            assert(taken.last() == all[k as int]);
            assert(r@ == concat_file_items(taken));
        }
    }
    proof {
        assert(all.take(all.len() as int) =~= all);
    }
    r
}

} // verus!
