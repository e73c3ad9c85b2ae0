//! The profile store: loading the list of profiles from the store file's
//! text, and choosing one by name.
use vstd::prelude::*;

use crate::client::{record_of_doc, KanidmClientConfig, ProfileView};
use crate::doc::{lookup, DocValue, DocView};
use crate::toml_codec::{parse_toml_text, toml_doc_of};

verus! {

broadcast use vstd::std_specs::vec::group_vec_axioms, vstd::seq::group_seq_axioms;

/// How reading the store file failed, as the caller saw it.
#[derive(Clone, Copy, Debug, PartialEq, Eq, Structural)]
pub enum IoFailure {
    NotFound,
    PermissionDenied,
    Other,
}

/// Everything that can go wrong over a run, from loading to writing.
#[derive(Clone, Copy, Debug, PartialEq, Eq, Structural)]
pub enum ProfileError {
    FileNotFound,
    PermissionDenied,
    OtherIoError,
    ParseError,
    ProfileNotFound,
    PromptAborted,
    WriteFailure,
}

/// The ordered list of profiles read from the store file.
pub struct KanidmProfiles {
    pub profiles: Vec<KanidmClientConfig>,
}

pub open spec fn profiles_view(v: Seq<KanidmClientConfig>) -> Seq<ProfileView> {
    v.map_values(|p: KanidmClientConfig| p@)
}

impl KanidmProfiles {
    pub open spec fn view(self) -> Seq<ProfileView> {
        profiles_view(self.profiles@)
    }
}

impl Default for KanidmProfiles {
    /// An empty store, the starting point before any file is read.
    fn default() -> (r: Self)
        ensures
            r.profiles@.len() == 0,
    {
        KanidmProfiles { profiles: Vec::new() }
    }
}

/// One profile table of the store file: it must name its profile, and it
/// must have the record shape.
pub open spec fn profile_of_table(d: DocView) -> Option<ProfileView> {
    match d {
        DocView::Obj(pairs) => match lookup(pairs, "name"@) {
            Some(DocView::Str(_)) => record_of_doc(d, ""@),
            _ => None,
        },
        _ => None,
    }
}

/// The profiles of the `profiles` array, in file order; one bad table spoils
/// the store.
pub open spec fn profiles_of_items(items: Seq<DocView>) -> Option<Seq<ProfileView>>
    decreases items.len(),
{
    if items.len() == 0 {
        Some(Seq::<ProfileView>::empty())
    } else {
        match (profile_of_table(items[0]), profiles_of_items(items.skip(1))) {
            (Some(p), Some(rest)) => Some(seq![p] + rest),
            _ => None,
        }
    }
}

/// The store a parsed document holds: its top level must be a table whose
/// `profiles` key carries an array of profile tables. Other top-level keys
/// are ignored, as a TOML decoder of this schema ignores them.
pub open spec fn store_of_doc(d: DocView) -> Option<Seq<ProfileView>> {
    match d {
        DocView::Obj(pairs) => match lookup(pairs, "profiles"@) {
            Some(DocView::Arr(items)) => profiles_of_items(items),
            _ => None,
        },
        _ => None,
    }
}

/// The store the file's text holds, through the TOML parse.
pub open spec fn store_of_text(s: Seq<char>) -> Option<Seq<ProfileView>> {
    match toml_doc_of(s) {
        Some(d) => store_of_doc(d),
        None => None,
    }
}

/// An empty `profiles` array is a valid, empty store, not an error.
pub proof fn lemma_empty_store(pairs: Seq<(Seq<char>, DocView)>)
    requires
        lookup(pairs, "profiles"@) == Some(DocView::Arr(Seq::<DocView>::empty())),
    ensures
        store_of_doc(DocView::Obj(pairs)) == Some(Seq::<ProfileView>::empty()),
{
}

/// A well-formed store yields one profile per table, in file order.
pub proof fn lemma_store_order(items: Seq<DocView>)
    ensures
        match profiles_of_items(items) {
            Some(ps) => ps.len() == items.len() && forall|i: int|
                0 <= i < items.len() ==> profile_of_table(#[trigger] items[i]) == Some(ps[i]),
            None => exists|i: int|
                0 <= i < items.len() && profile_of_table(#[trigger] items[i]) is None,
        },
    decreases items.len(),
{
    if items.len() > 0 {
        lemma_store_order(items.skip(1));
        assert(forall|i: int| 1 <= i < items.len() ==> items.skip(1)[i - 1] == (
        #[trigger] items[i]));
        match profiles_of_items(items) {
            Some(ps) => {
                assert forall|i: int| 0 <= i < items.len() implies profile_of_table(
                    #[trigger] items[i],
                ) == Some(ps[i]) by {
                    if i > 0 {
                        assert(items.skip(1)[i - 1] == items[i]);
                        assert(ps[i] == profiles_of_items(items.skip(1))->0[i - 1]);
                    }
                }
            },
            None => {
                if profile_of_table(items[0]) is Some {
                    let j = choose|j: int|
                        0 <= j < items.skip(1).len() && profile_of_table(
                            #[trigger] items.skip(1)[j],
                        ) is None;
                    assert(items.skip(1)[j] == items[j + 1]);
                    assert(profile_of_table(items[j + 1]) is None);
                }
            },
        }
    }
}

fn profile_from_table(d: &DocValue) -> (r: Option<KanidmClientConfig>)
    ensures
        match profile_of_table(d@) {
            Some(pv) => r matches Some(p) && p@ == pv,
            None => r is None,
        },
{
    match d {
        DocValue::Obj(pairs) => match crate::client::lookup_exec(pairs, "name") {
            Some(DocValue::Str(_)) => crate::client::from_document(d, ""),
            _ => None,
        },
        _ => None,
    }
}

#[verifier::loop_isolation(false)]
fn store_from_items(items: &Vec<DocValue>) -> (r: Option<Vec<KanidmClientConfig>>)
    ensures
        match profiles_of_items(crate::doc::doc_seq_view(items@)) {
            Some(ps) => r matches Some(v) && profiles_view(v@) == ps,
            None => r is None,
        },
{
    let ghost iv = crate::doc::doc_seq_view(items@);
    proof {
        crate::doc::lemma_doc_seq_view(items@);
    }
    let mut out: Vec<KanidmClientConfig> = Vec::new();
    let mut i: usize = 0;
    proof {
        assert(iv.skip(0) =~= iv);
        assert(profiles_view(out@) =~= Seq::<ProfileView>::empty());
    }
    while i < items.len()
        invariant
            i <= items@.len(),
            match profiles_of_items(iv.skip(i as int)) {
                Some(rest) => profiles_of_items(iv) == Some(profiles_view(out@) + rest),
                None => profiles_of_items(iv) is None,
            },
        decreases items@.len() - i,
    {
        let ghost tail = iv.skip(i as int);
        proof {
            assert(tail.len() > 0);
            assert(tail[0] == items@[i as int]@);
            assert(tail.skip(1) =~= iv.skip(i as int + 1));
        }
        match profile_from_table(&items[i]) {
            Some(p) => {
                let ghost old_out = out@;
                let ghost pv = p@;
                out.push(p);
                proof {
                    assert(profiles_view(out@) =~= profiles_view(old_out) + seq![pv]);
                    match profiles_of_items(iv.skip(i as int + 1)) {
                        Some(rest2) => {
                            assert(profiles_of_items(tail) == Some(seq![pv] + rest2));
                            assert((profiles_view(old_out) + (seq![pv] + rest2)) =~= (
                            profiles_view(out@) + rest2));
                        },
                        None => {},
                    }
                }
            },
            None => {
                proof {
                    assert(profiles_of_items(tail) is None);
                }
                return None;
            },
        }
        i = i + 1;
    }
    proof {
        assert(iv.skip(items@.len() as int) =~= Seq::<DocView>::empty());
        assert(profiles_view(out@) + Seq::<ProfileView>::empty() =~= profiles_view(out@));
    }
    Some(out)
}

fn store_from_doc(d: &DocValue) -> (r: Option<Vec<KanidmClientConfig>>)
    ensures
        match store_of_doc(d@) {
            Some(ps) => r matches Some(v) && profiles_view(v@) == ps,
            None => r is None,
        },
{
    match d {
        DocValue::Obj(pairs) => match crate::client::lookup_exec(pairs, "profiles") {
            Some(DocValue::Arr(items)) => store_from_items(items),
            _ => None,
        },
        _ => None,
    }
}

impl KanidmProfiles {
    /// Turns the outcome of reading the store file into the loaded store:
    /// a read failure keeps its kind, text that is not a well-shaped TOML
    /// store is a parse error, and well-shaped text yields its profiles in
    /// file order. An empty `profiles` array is a valid empty store, not an
    /// error.
    pub fn parse_config_profiles(self, read: Result<String, IoFailure>) -> (r: Result<
        KanidmProfiles,
        ProfileError,
    >)
        ensures
            match read {
                Err(IoFailure::NotFound) => r == Err::<KanidmProfiles, ProfileError>(
                    ProfileError::FileNotFound,
                ),
                Err(IoFailure::PermissionDenied) => r == Err::<KanidmProfiles, ProfileError>(
                    ProfileError::PermissionDenied,
                ),
                Err(IoFailure::Other) => r == Err::<KanidmProfiles, ProfileError>(
                    ProfileError::OtherIoError,
                ),
                Ok(text) => match store_of_text(text@) {
                    Some(ps) => r matches Ok(store) && store@ == ps,
                    None => r == Err::<KanidmProfiles, ProfileError>(ProfileError::ParseError),
                },
            },
    {
        let text = match read {
            Ok(text) => text,
            Err(IoFailure::NotFound) => {
                return Err(ProfileError::FileNotFound);
            },
            Err(IoFailure::PermissionDenied) => {
                return Err(ProfileError::PermissionDenied);
            },
            Err(IoFailure::Other) => {
                return Err(ProfileError::OtherIoError);
            },
        };
        let d = match parse_toml_text(text.as_str()) {
            Some(d) => d,
            None => {
                return Err(ProfileError::ParseError);
            },
        };
        match store_from_doc(&d) {
            Some(profiles) => Ok(KanidmProfiles { profiles }),
            None => Err(ProfileError::ParseError),
        }
    }
}

/// The index of the first profile with the requested name: a linear scan in
/// store order, case-sensitive.
pub fn select_by_name(profiles: &Vec<KanidmClientConfig>, name: &str) -> (r: Option<usize>)
    ensures
        match r {
            Some(i) => i < profiles@.len() && profiles@[i as int].name@ == name@ && forall|j: int|
                0 <= j < i ==> (#[trigger] profiles@[j]).name@ != name@,
            None => forall|j: int|
                0 <= j < profiles@.len() ==> (#[trigger] profiles@[j]).name@ != name@,
        },
{
    let mut i: usize = 0;
    while i < profiles.len()
        invariant
            i <= profiles@.len(),
            forall|j: int| 0 <= j < i ==> (#[trigger] profiles@[j]).name@ != name@,
        decreases profiles@.len() - i,
    {
        if crate::doc::str_eq(profiles[i].name.as_str(), name) {
            return Some(i);
        }
        i = i + 1;
    }
    None
}

/// Renders the chosen profile as the active configuration's TOML text, to be
/// printed and written out; `None` where the TOML printer has no form for it.
pub fn render_active_config(profile: &KanidmClientConfig) -> (r: Option<String>)
    ensures
        crate::toml_codec::view_opt_string(r) == crate::toml_codec::toml_text_of(
            crate::client::active_doc_of(profile@),
        ),
{
    let d = profile.to_active_document();
    crate::toml_codec::encode_toml_doc(&d)
}

} // verus!
