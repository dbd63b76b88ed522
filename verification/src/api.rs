//! Typed records returned by the remote service, and the spec-level views
//! that the rest of the crate states its contracts over.
//!
//! The wire envelopes (`{"Response": {"Items": [...]}}`) are unwrapped by
//! the caller before these records are built; the records themselves hold
//! only plain values.

use vstd::prelude::*;

verus! {

/// One authenticated identity as the remote service reports it.
pub struct User {
    pub name: String,
    pub id: String,
}

/// Spec-level image of a [`User`].
pub ghost struct UserView {
    pub name: Seq<char>,
    pub id: Seq<char>,
}

impl View for User {
    type V = UserView;

    open spec fn view(&self) -> UserView {
        UserView { name: self.name@, id: self.id@ }
    }
}

/// A project record exactly as listed by the remote service, before it is
/// tagged with the account that fetched it.
pub struct ProjectRecord {
    pub name: String,
    pub id: String,
    pub user_owned_by: User,
    pub date_created: String,
}

/// Spec-level image of a [`ProjectRecord`].
pub ghost struct ProjectRecordView {
    pub name: Seq<char>,
    pub id: Seq<char>,
    pub user_owned_by: UserView,
    pub date_created: Seq<char>,
}

impl View for ProjectRecord {
    type V = ProjectRecordView;

    open spec fn view(&self) -> ProjectRecordView {
        ProjectRecordView {
            name: self.name@,
            id: self.id@,
            user_owned_by: self.user_owned_by@,
            date_created: self.date_created@,
        }
    }
}

/// A project tagged with `user_fetched_by_id`: the account whose token was
/// used to discover it, and therefore the only token that may be used for
/// every later operation on the project.
pub struct Project {
    pub name: String,
    pub id: String,
    pub user_owned_by: User,
    pub user_fetched_by_id: String,
    pub date_created: String,
}

/// Spec-level image of a [`Project`].
pub ghost struct ProjectView {
    pub name: Seq<char>,
    pub id: Seq<char>,
    pub user_owned_by: UserView,
    pub user_fetched_by_id: Seq<char>,
    pub date_created: Seq<char>,
}

impl View for Project {
    type V = ProjectView;

    open spec fn view(&self) -> ProjectView {
        ProjectView {
            name: self.name@,
            id: self.id@,
            user_owned_by: self.user_owned_by@,
            user_fetched_by_id: self.user_fetched_by_id@,
            date_created: self.date_created@,
        }
    }
}

/// The project a raw listing record becomes once tagged with the account
/// that fetched it.
pub open spec fn tag_project(rec: ProjectRecordView, fetched_by: Seq<char>) -> ProjectView {
    ProjectView {
        name: rec.name,
        id: rec.id,
        user_owned_by: rec.user_owned_by,
        user_fetched_by_id: fetched_by,
        date_created: rec.date_created,
    }
}

/// One page of a project listing for a single account.
pub struct ProjectResponse {
    pub items: Vec<ProjectRecord>,
}

impl ProjectResponse {
    /// Tag every listed project with the id of the account whose token
    /// fetched this response, preserving order; the tag decides which
    /// token later operations on the project must use.
    pub fn projects_as_user(self, user_id: &str) -> (r: Vec<Project>)
        ensures
            r@.len() == self.items@.len(),
            forall|i: int|
                0 <= i < r@.len() ==> r@[i]@ == tag_project(self.items@[i]@, user_id@),
    {
        let items = self.items;
        let mut r: Vec<Project> = Vec::new();
        let n = items.len();
        let mut i: usize = 0;
        while i < n
            invariant
                n == items@.len(),
                i <= n,
                r@.len() == i,
                forall|j: int|
                    0 <= j < i ==> r@[j]@ == tag_project(items@[j]@, user_id@),
            decreases n - i,
        {
            let rec = &items[i];
            r.push(
                Project {
                    name: rec.name.clone(),
                    id: rec.id.clone(),
                    user_owned_by: User {
                        name: rec.user_owned_by.name.clone(),
                        id: rec.user_owned_by.id.clone(),
                    },
                    user_fetched_by_id: user_id.to_owned(),
                    date_created: rec.date_created.clone(),
                },
            );
            i += 1;
        }
        r
    }
}

/// The identity record behind the current-user endpoint; its `id` becomes
/// the account id that keys the credential store.
pub struct CurrentUserResponse {
    pub id: String,
}

/// One downloadable artifact: `size` is the authoritative byte count and
/// `e_tag` the server-declared content tag.
pub struct DataFile {
    pub id: String,
    pub name: String,
    pub size: i64,
    pub e_tag: String,
}

/// Spec-level image of a [`DataFile`].
pub ghost struct DataFileView {
    pub id: Seq<char>,
    pub name: Seq<char>,
    pub size: int,
    pub e_tag: Seq<char>,
}

impl View for DataFile {
    type V = DataFileView;

    open spec fn view(&self) -> DataFileView {
        DataFileView {
            id: self.id@,
            name: self.name@,
            size: self.size as int,
            e_tag: self.e_tag@,
        }
    }
}

impl Clone for DataFile {
    fn clone(&self) -> (r: Self)
        ensures
            r@ == self@,
    {
        DataFile {
            id: self.id.clone(),
            name: self.name.clone(),
            size: self.size,
            e_tag: self.e_tag.clone(),
        }
    }
}

/// One page of a file listing for a single sample.
pub struct FileResponse {
    pub items: Vec<DataFile>,
}

/// A sample: `status` drives the completion gate, and `experiment_name`
/// ties an undetermined-reads sample back to the project it was run for.
pub struct Sample {
    pub id: String,
    pub status: String,
    pub name: String,
    pub experiment_name: Option<String>,
    pub date_created: String,
}

/// Spec-level image of a [`Sample`].
pub ghost struct SampleView {
    pub id: Seq<char>,
    pub status: Seq<char>,
    pub name: Seq<char>,
    pub experiment_name: Option<Seq<char>>,
    pub date_created: Seq<char>,
}

impl View for Sample {
    type V = SampleView;

    open spec fn view(&self) -> SampleView {
        SampleView {
            id: self.id@,
            status: self.status@,
            name: self.name@,
            experiment_name: match self.experiment_name {
                Some(e) => Some(e@),
                None => None,
            },
            date_created: self.date_created@,
        }
    }
}

/// One page of a sample listing for a single project.
pub struct SampleResponse {
    pub items: Vec<Sample>,
}

/// A sequencing run as the remote service lists it.
pub struct Run {
    pub name: String,
    pub id: String,
    pub user_owned_by: User,
    pub date_created: String,
}

/// Spec-level image of a [`Run`].
pub ghost struct RunView {
    pub name: Seq<char>,
    pub id: Seq<char>,
    pub user_owned_by: UserView,
    pub date_created: Seq<char>,
}

impl View for Run {
    type V = RunView;

    open spec fn view(&self) -> RunView {
        RunView {
            name: self.name@,
            id: self.id@,
            user_owned_by: self.user_owned_by@,
            date_created: self.date_created@,
        }
    }
}

/// One page of a run listing.
pub struct RunResponse {
    pub items: Vec<Run>,
}

} // verus!
