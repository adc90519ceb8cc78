//! The factory-reset request, and the list of paths to preserve that follows from
//! it.
//!
//! A request reads `{"mode": N, "preserve": ["applications", ...]}`. The list
//! starts with a mandatory entry. The key `applications` adds the `paths` of every
//! `.json` file in `etc/omnect/factory-reset.d`; any other key adds the paths that
//! `etc/omnect/factory-reset.json` lists under it.

use vstd::prelude::*;
use vstd::string::*;

use crate::effect::{
    and_then, ask, follows, is_yes, perform, progress, reading, reason, reason_of, says_yes,
    Effect, EffectView, Outcome, OutcomeView, Progress, Stop,
};
use crate::error::{
    FactoryResetError, FactoryResetErrorView, InitramfsError, InitramfsErrorView,
};
use crate::json::{document_of, listed_strings, parse_json, parsed_json, strings_under, JsonTree};
use crate::path::{extension, extension_text, join, join_text};
use crate::text::{concat2, concat4, copy_of, same_text};

verus! {

/// The file with the lists of paths by key, relative to the root file system.
pub const FACTORY_RESET_CONFIG_FILE: &'static str = "etc/omnect/factory-reset.json";

/// The directory with the lists of paths by application, relative to the root file
/// system.
pub const FACTORY_RESET_CONFIG_DIR: &'static str = "etc/omnect/factory-reset.d";

/// What every list of paths to preserve starts with.
pub const PRESERVE_LIST_MANDATORY: &'static str = "/etc/omnect/factory-reset.d/";

/// The key that stands for the paths of all applications.
pub const APPLICATIONS: &'static str = "applications";

/// A factory-reset request.
#[derive(Debug)]
pub struct FactoryResetConfig {
    pub mode: u32,
    pub preserve: Vec<String>,
}

/// A factory-reset request as mathematical text.
#[verifier::ext_equal]
pub struct FactoryResetConfigView {
    pub mode: u32,
    pub preserve: Seq<Seq<char>>,
}

impl DeepView for FactoryResetConfig {
    type V = FactoryResetConfigView;

    open spec fn deep_view(&self) -> FactoryResetConfigView {
        FactoryResetConfigView { mode: self.mode, preserve: self.preserve.deep_view() }
    }
}

pub open spec fn invalid_config(text: Seq<char>) -> InitramfsErrorView {
    InitramfsErrorView::FactoryReset(FactoryResetErrorView::InvalidConfig(text))
}

pub open spec fn missing_field(text: Seq<char>) -> InitramfsErrorView {
    InitramfsErrorView::FactoryReset(FactoryResetErrorView::MissingField(text))
}

/// Has the request read out of its JSON text.
pub open spec fn parse_progress(
    json: Seq<char>,
    outcomes: Seq<OutcomeView>,
    at: int,
) -> Progress<FactoryResetConfigView, InitramfsErrorView> {
    and_then(
        ask(EffectView::ReadRequest { json }, outcomes, at),
        |outcome: OutcomeView, i: int|
            match outcome {
                OutcomeView::Request(mode, preserve) => Progress::Returns(
                    FactoryResetConfigView { mode, preserve },
                    i,
                ),
                other => Progress::Fails(
                    invalid_config("Failed to parse factory-reset JSON: "@ + reason_of(other)),
                    i,
                ),
            },
    )
}

impl FactoryResetConfig {
    /// Has the request read out of the JSON text that the bootloader variable holds.
    pub fn parse(json: &str, outcomes: &Vec<Outcome>, at: &mut usize) -> (r: Result<
        FactoryResetConfig,
        Stop<InitramfsError>,
    >)
        ensures
            progress(r, *final(at)) == parse_progress(
                json@,
                outcomes.deep_view(),
                *old(at) as int,
            ),
    {
        match perform(Effect::ReadRequest { json: json.to_owned() }, outcomes, at)? {
            Outcome::Request(mode, preserve) => {
                Ok(FactoryResetConfig { mode: *mode, preserve: copy_of(preserve) })
            },
            other => Err(
                Stop::Fail(
                    InitramfsError::FactoryReset(
                        FactoryResetError::InvalidConfig(
                            concat2("Failed to parse factory-reset JSON: ", reason(other).as_str()),
                        ),
                    ),
                ),
            ),
        }
    }
}

// ---------------------------------------------------------------------------
// Applications
// ---------------------------------------------------------------------------

/// The paths that an application's file lists, by what its text reads as.
pub open spec fn application_paths(
    file: Seq<char>,
    document: Result<JsonTree, Seq<char>>,
) -> Result<Seq<Seq<char>>, InitramfsErrorView> {
    match document {
        Ok(tree) => match strings_under(tree, "paths"@) {
            Some(paths) => Ok(paths),
            None => Err(missing_field(file + ": no path object"@)),
        },
        Err(e) => Err(missing_field(file + ": no path object ("@ + e + ")"@)),
    }
}

/// What a list of paths or an error stands for.
pub open spec fn list_view(r: Result<Vec<String>, InitramfsError>) -> Result<
    Seq<Seq<char>>,
    InitramfsErrorView,
> {
    match r {
        Ok(paths) => Ok(paths.deep_view()),
        Err(e) => Err(e.deep_view()),
    }
}

/// Takes the paths that an application's file lists out of what its text reads as.
pub fn paths_of_application(file: &str, document: Result<serde_json::Value, String>) -> (r: Result<
    Vec<String>,
    InitramfsError,
>)
    ensures
        list_view(r) == application_paths(file@, document_of(document)),
{
    let value = match document {
        Ok(value) => value,
        Err(e) => {
            return Err(
                InitramfsError::FactoryReset(
                    FactoryResetError::MissingField(
                        concat4(file, ": no path object (", e.as_str(), ")"),
                    ),
                ),
            );
        },
    };
    match listed_strings(&value, "paths") {
        Some(paths) => Ok(paths),
        None => Err(
            InitramfsError::FactoryReset(
                FactoryResetError::MissingField(concat2(file, ": no path object")),
            ),
        ),
    }
}

/// Reads the paths that one entry of the applications' directory lists: none
/// unless its name ends in `.json`.
pub open spec fn application_progress(
    file: Seq<char>,
    outcomes: Seq<OutcomeView>,
    at: int,
) -> Progress<Seq<Seq<char>>, InitramfsErrorView> {
    if extension_text(file) == Some("json"@) {
        and_then(
            reading(
                file,
                |e: Seq<char>| invalid_config("Failed to read "@ + file + ": "@ + e),
                outcomes,
                at,
            ),
            |content: Seq<char>, i: int|
                match application_paths(file, parsed_json(content)) {
                    Ok(paths) => Progress::Returns(paths, i),
                    Err(e) => Progress::Fails(e, i),
                },
        )
    } else {
        Progress::Returns(Seq::empty(), at)
    }
}

fn is_json_file(file: &str) -> (r: bool)
    ensures
        r == (extension_text(file@) == Some("json"@)),
{
    match extension(file) {
        Some(suffix) => same_text(suffix.as_str(), "json"),
        None => false,
    }
}

fn append_list(list: &mut Vec<String>, more: &Vec<String>)
    ensures
        final(list).deep_view() == old(list).deep_view() + more.deep_view(),
{
    let mut i: usize = 0;
    while i < more.len()
        invariant
            i <= more@.len(),
            list@.len() == old(list)@.len() + i,
            forall|k: int| 0 <= k < old(list)@.len() ==> (#[trigger] list@[k])@ == old(list)@[k]@,
            forall|k: int|
                0 <= k < i ==> list@[old(list)@.len() + k]@ == (#[trigger] more@[k])@,
        decreases more@.len() - i,
    {
        list.push(more[i].clone());
        i = i + 1;
    }
    assert forall|k: int| 0 <= k < list.deep_view().len() implies list.deep_view()[k] == (old(
        list,
    ).deep_view() + more.deep_view())[k] by {
        if k >= old(list)@.len() {
            let j = k - old(list)@.len();
            assert(list@[old(list)@.len() + j]@ == more@[j]@);
        }
    }
    assert(list.deep_view() =~= old(list).deep_view() + more.deep_view());
}

/// Reads the paths that one entry of the applications' directory lists.
fn collect_application(file: &str, outcomes: &Vec<Outcome>, at: &mut usize) -> (r: Result<
    Vec<String>,
    Stop<InitramfsError>,
>)
    ensures
        progress(r, *final(at)) == application_progress(
            file@,
            outcomes.deep_view(),
            *old(at) as int,
        ),
{
    if !is_json_file(file) {
        let none: Vec<String> = Vec::new();
        assert(none.deep_view() =~= Seq::empty());
        return Ok(none);
    }
    let content = match perform(Effect::ReadText { path: file.to_owned() }, outcomes, at)? {
        Outcome::Text(content) => content,
        other => {
            return Err(
                Stop::Fail(
                    InitramfsError::FactoryReset(
                        FactoryResetError::InvalidConfig(
                            concat4("Failed to read ", file, ": ", reason(other).as_str()),
                        ),
                    ),
                ),
            );
        },
    };
    match paths_of_application(file, parse_json(content.as_str())) {
        Ok(paths) => Ok(paths),
        Err(e) => Err(Stop::Fail(e)),
    }
}

/// Reads what the first `count` entries of the applications' directory list.
pub open spec fn applications_each(
    files: Seq<Seq<char>>,
    count: int,
    outcomes: Seq<OutcomeView>,
    at: int,
) -> Progress<Seq<Seq<char>>, InitramfsErrorView>
    decreases count,
{
    if count <= 0 {
        Progress::Returns(Seq::empty(), at)
    } else {
        match applications_each(files, count - 1, outcomes, at) {
            Progress::Returns(before, i) => match application_progress(
                files[count - 1],
                outcomes,
                i,
            ) {
                Progress::Returns(paths, j) => Progress::Returns(before + paths, j),
                stopped => stopped,
            },
            stopped => stopped,
        }
    }
}

proof fn lemma_applications_stop(
    files: Seq<Seq<char>>,
    count: int,
    more: int,
    outcomes: Seq<OutcomeView>,
    at: int,
)
    requires
        0 <= count <= more,
        !(applications_each(files, count, outcomes, at) is Returns),
    ensures
        applications_each(files, more, outcomes, at) == applications_each(
            files,
            count,
            outcomes,
            at,
        ),
    decreases more,
{
    if count < more {
        lemma_applications_stop(files, count, more - 1, outcomes, at);
    }
}

/// Reads the paths of all applications: none if their directory does not exist.
pub open spec fn applications_progress(
    rootfs: Seq<char>,
    outcomes: Seq<OutcomeView>,
    at: int,
) -> Progress<Seq<Seq<char>>, InitramfsErrorView> {
    let dir = join_text(rootfs, FACTORY_RESET_CONFIG_DIR@);
    and_then(
        ask(EffectView::Exists { path: dir }, outcomes, at),
        |outcome: OutcomeView, i: int|
            if says_yes(outcome) {
                and_then(
                    ask(EffectView::ListDirectory { path: dir }, outcomes, i),
                    |listed: OutcomeView, j: int|
                        match listed {
                            OutcomeView::Paths(files) => applications_each(
                                files,
                                files.len() as int,
                                outcomes,
                                j,
                            ),
                            other => Progress::Fails(
                                invalid_config(
                                    "Failed to read "@ + dir + ": "@ + reason_of(other),
                                ),
                                j,
                            ),
                        },
                )
            } else {
                Progress::Returns(Seq::empty(), i)
            },
    )
}

/// Reads the paths of all applications.
pub fn collect_application_paths(rootfs: &str, outcomes: &Vec<Outcome>, at: &mut usize) -> (r:
    Result<Vec<String>, Stop<InitramfsError>>)
    ensures
        progress(r, *final(at)) == applications_progress(
            rootfs@,
            outcomes.deep_view(),
            *old(at) as int,
        ),
{
    let dir = join(rootfs, FACTORY_RESET_CONFIG_DIR);
    let mut list: Vec<String> = Vec::new();
    assert(list.deep_view() =~= Seq::empty());
    if !is_yes(perform(Effect::Exists { path: dir.clone() }, outcomes, at)?) {
        return Ok(list);
    }
    let files = match perform(Effect::ListDirectory { path: dir.clone() }, outcomes, at)? {
        Outcome::Paths(files) => files,
        other => {
            return Err(
                Stop::Fail(
                    InitramfsError::FactoryReset(
                        FactoryResetError::InvalidConfig(
                            concat4("Failed to read ", dir.as_str(), ": ", reason(other).as_str()),
                        ),
                    ),
                ),
            );
        },
    };
    let ghost start = *at as int;
    let ghost names = files.deep_view();
    let mut k: usize = 0;
    while k < files.len()
        invariant
            k <= files@.len(),
            names == files.deep_view(),
            applications_progress(rootfs@, outcomes.deep_view(), *old(at) as int)
                == applications_each(names, names.len() as int, outcomes.deep_view(), start),
            applications_each(names, k as int, outcomes.deep_view(), start) == Progress::<
                _,
                InitramfsErrorView,
            >::Returns(list.deep_view(), *at as int),
        decreases files@.len() - k,
    {
        let one = collect_application(files[k].as_str(), outcomes, at);
        k = k + 1;
        proof {
            if one is Err {
                assert(applications_each(names, k as int, outcomes.deep_view(), start) == progress(
                    one,
                    *at,
                ));
                lemma_applications_stop(
                    names,
                    k as int,
                    names.len() as int,
                    outcomes.deep_view(),
                    start,
                );
            }
        }
        append_list(&mut list, &one?);
    }
    Ok(list)
}

// ---------------------------------------------------------------------------
// Other keys
// ---------------------------------------------------------------------------

/// The paths that the configuration file lists under a key, by what its text
/// reads as.
pub open spec fn key_paths(
    file: Seq<char>,
    key: Seq<char>,
    document: Result<JsonTree, Seq<char>>,
) -> Result<Seq<Seq<char>>, InitramfsErrorView> {
    match document {
        Ok(tree) => match strings_under(tree, key) {
            Some(paths) => Ok(paths),
            None => Err(missing_field(file + ": no "@ + key + " object"@)),
        },
        Err(e) => Err(invalid_config("Failed to parse "@ + file + ": "@ + e)),
    }
}

/// Takes the paths that the configuration file lists under a key out of what its text
/// reads as.
pub fn paths_of_key(
    file: &str,
    key: &str,
    document: Result<serde_json::Value, String>,
) -> (r: Result<Vec<String>, InitramfsError>)
    ensures
        list_view(r) == key_paths(file@, key@, document_of(document)),
{
    let value = match document {
        Ok(value) => value,
        Err(e) => {
            return Err(
                InitramfsError::FactoryReset(
                    FactoryResetError::InvalidConfig(
                        concat4("Failed to parse ", file, ": ", e.as_str()),
                    ),
                ),
            );
        },
    };
    match listed_strings(&value, key) {
        Some(paths) => Ok(paths),
        None => Err(
            InitramfsError::FactoryReset(
                FactoryResetError::MissingField(concat4(file, ": no ", key, " object")),
            ),
        ),
    }
}

/// Reads the paths that the configuration file lists under a key.
pub open spec fn key_progress(
    key: Seq<char>,
    rootfs: Seq<char>,
    outcomes: Seq<OutcomeView>,
    at: int,
) -> Progress<Seq<Seq<char>>, InitramfsErrorView> {
    let file = join_text(rootfs, FACTORY_RESET_CONFIG_FILE@);
    and_then(
        reading(
            file,
            |e: Seq<char>| invalid_config("Failed to read "@ + file + ": "@ + e),
            outcomes,
            at,
        ),
        |content: Seq<char>, i: int|
            match key_paths(file, key, parsed_json(content)) {
                Ok(paths) => Progress::Returns(paths, i),
                Err(e) => Progress::Fails(e, i),
            },
    )
}

/// Reads the paths that the configuration file lists under `key`.
pub fn collect_key_paths(
    key: &str,
    rootfs: &str,
    outcomes: &Vec<Outcome>,
    at: &mut usize,
) -> (r: Result<Vec<String>, Stop<InitramfsError>>)
    ensures
        progress(r, *final(at)) == key_progress(
            key@,
            rootfs@,
            outcomes.deep_view(),
            *old(at) as int,
        ),
{
    let file = join(rootfs, FACTORY_RESET_CONFIG_FILE);
    let content = match perform(Effect::ReadText { path: file.clone() }, outcomes, at)? {
        Outcome::Text(content) => content,
        other => {
            return Err(
                Stop::Fail(
                    InitramfsError::FactoryReset(
                        FactoryResetError::InvalidConfig(
                            concat4("Failed to read ", file.as_str(), ": ", reason(other).as_str()),
                        ),
                    ),
                ),
            );
        },
    };
    match paths_of_key(file.as_str(), key, parse_json(content.as_str())) {
        Ok(paths) => Ok(paths),
        Err(e) => Err(Stop::Fail(e)),
    }
}

// ---------------------------------------------------------------------------
// The list
// ---------------------------------------------------------------------------

/// Reads the paths that one key of a request stands for.
pub open spec fn paths_for_key(
    key: Seq<char>,
    rootfs: Seq<char>,
    outcomes: Seq<OutcomeView>,
    at: int,
) -> Progress<Seq<Seq<char>>, InitramfsErrorView> {
    if key == APPLICATIONS@ {
        applications_progress(rootfs, outcomes, at)
    } else {
        key_progress(key, rootfs, outcomes, at)
    }
}

/// The mandatory entry, and then the paths of the first `count` keys, in order.
pub open spec fn preserve_each(
    keys: Seq<Seq<char>>,
    count: int,
    rootfs: Seq<char>,
    outcomes: Seq<OutcomeView>,
    at: int,
) -> Progress<Seq<Seq<char>>, InitramfsErrorView>
    decreases count,
{
    if count <= 0 {
        Progress::Returns(seq![PRESERVE_LIST_MANDATORY@], at)
    } else {
        match preserve_each(keys, count - 1, rootfs, outcomes, at) {
            Progress::Returns(before, i) => match paths_for_key(
                keys[count - 1],
                rootfs,
                outcomes,
                i,
            ) {
                Progress::Returns(paths, j) => Progress::Returns(before + paths, j),
                stopped => stopped,
            },
            stopped => stopped,
        }
    }
}

/// The list of paths to preserve.
pub open spec fn preserve_progress(
    config: FactoryResetConfigView,
    rootfs: Seq<char>,
    outcomes: Seq<OutcomeView>,
    at: int,
) -> Progress<Seq<Seq<char>>, InitramfsErrorView> {
    preserve_each(config.preserve, config.preserve.len() as int, rootfs, outcomes, at)
}

proof fn lemma_preserve_stops(
    keys: Seq<Seq<char>>,
    count: int,
    more: int,
    rootfs: Seq<char>,
    outcomes: Seq<OutcomeView>,
    at: int,
)
    requires
        0 <= count <= more,
        !(preserve_each(keys, count, rootfs, outcomes, at) is Returns),
    ensures
        preserve_each(keys, more, rootfs, outcomes, at) == preserve_each(
            keys,
            count,
            rootfs,
            outcomes,
            at,
        ),
    decreases more,
{
    if count < more {
        lemma_preserve_stops(keys, count, more - 1, rootfs, outcomes, at);
    }
}

/// Builds the list of paths to preserve: the mandatory entry, and then what each
/// key of the request stands for.
pub fn build_preserve_list(
    config: &FactoryResetConfig,
    rootfs: &str,
    outcomes: &Vec<Outcome>,
    at: &mut usize,
) -> (r: Result<Vec<String>, Stop<InitramfsError>>)
    ensures
        progress(r, *final(at)) == preserve_progress(
            config.deep_view(),
            rootfs@,
            outcomes.deep_view(),
            *old(at) as int,
        ),
{
    let mut list: Vec<String> = Vec::new();
    list.push(PRESERVE_LIST_MANDATORY.to_owned());
    let ghost start = *at as int;
    let ghost keys = config.preserve.deep_view();
    let mut k: usize = 0;
    assert(list.deep_view() =~= seq![PRESERVE_LIST_MANDATORY@]);
    while k < config.preserve.len()
        invariant
            k <= config.preserve@.len(),
            keys == config.preserve.deep_view(),
            start == *old(at),
            preserve_each(keys, k as int, rootfs@, outcomes.deep_view(), start)
                == Progress::<_, InitramfsErrorView>::Returns(list.deep_view(), *at as int),
        decreases config.preserve@.len() - k,
    {
        let key = config.preserve[k].as_str();
        let one = if same_text(key, APPLICATIONS) {
            collect_application_paths(rootfs, outcomes, at)
        } else {
            collect_key_paths(key, rootfs, outcomes, at)
        };
        k = k + 1;
        proof {
            if one is Err {
                assert(preserve_each(keys, k as int, rootfs@, outcomes.deep_view(), start)
                    == progress(one, *at));
                lemma_preserve_stops(
                    keys,
                    k as int,
                    keys.len() as int,
                    rootfs@,
                    outcomes.deep_view(),
                    start,
                );
            }
        }
        append_list(&mut list, &one?);
    }
    Ok(list)
}

// ---------------------------------------------------------------------------
// Laws
// ---------------------------------------------------------------------------

proof fn lemma_mandatory_entry(
    keys: Seq<Seq<char>>,
    count: int,
    rootfs: Seq<char>,
    outcomes: Seq<OutcomeView>,
    at: int,
)
    ensures
        match preserve_each(keys, count, rootfs, outcomes, at) {
            Progress::Returns(list, _) => list.len() > 0 && list[0] == PRESERVE_LIST_MANDATORY@,
            _ => true,
        },
    decreases count,
{
    if count > 0 {
        lemma_mandatory_entry(keys, count - 1, rootfs, outcomes, at);
    }
}

/// Whatever the request, the list of paths to preserve starts with the mandatory entry.
pub proof fn law_mandatory_entry_comes_first(
    config: FactoryResetConfigView,
    rootfs: Seq<char>,
    outcomes: Seq<OutcomeView>,
    at: int,
)
    ensures
        match preserve_progress(config, rootfs, outcomes, at) {
            Progress::Returns(list, _) => list.len() > 0 && list[0] == PRESERVE_LIST_MANDATORY@,
            _ => true,
        },
{
    lemma_mandatory_entry(config.preserve, config.preserve.len() as int, rootfs, outcomes, at);
}

/// Whether a file could be read as a document with a list under `key`.
pub open spec fn lists_paths(outcome: OutcomeView, key: Seq<char>) -> bool {
    &&& outcome is Text
    &&& parsed_json(outcome->Text_0) is Ok
    &&& strings_under(parsed_json(outcome->Text_0)->Ok_0, key) is Some
}

/// The list under `key` of a file that was read.
pub open spec fn listed(outcome: OutcomeView, key: Seq<char>) -> Seq<Seq<char>> {
    strings_under(parsed_json(outcome->Text_0)->Ok_0, key)->Some_0
}

proof fn lemma_applications(
    files: Seq<Seq<char>>,
    count: int,
    wanted: spec_fn(Seq<char>) -> bool,
    read: spec_fn(Seq<char>) -> EffectView,
    fine: spec_fn(int, OutcomeView) -> bool,
    fault: spec_fn(int, OutcomeView) -> InitramfsErrorView,
    outcomes: Seq<OutcomeView>,
    at: int,
)
    requires
        0 <= at <= outcomes.len(),
        0 <= count <= files.len(),
        forall|file: Seq<char>| #[trigger]
            wanted(file) == (extension_text(file) == Some("json"@)),
        forall|file: Seq<char>| #[trigger] read(file) == (EffectView::ReadText { path: file }),
        forall|k: int, o: OutcomeView| #[trigger] fine(k, o) == lists_paths(o, "paths"@),
        forall|k: int, o: OutcomeView|
            0 <= k < files.take(count).filter(wanted).len() && !lists_paths(o, "paths"@)
                ==> #[trigger] fault(k, o) == application_fault(
                files.take(count).filter(wanted)[k],
                o,
            ),
    ensures
        follows(
            applications_each(files, count, outcomes, at),
            files.take(count).filter(wanted).map_values(read),
            fine,
            fault,
            outcomes,
            at,
        ),
        match applications_each(files, count, outcomes, at) {
            Progress::Returns(list, _) => list == Seq::new(
                files.take(count).filter(wanted).len(),
                |k: int| listed(outcomes[at + k], "paths"@),
            ).flatten(),
            _ => true,
        },
    decreases count,
{
    let now = files.take(count);
    let kept = now.filter(wanted);
    if count == 0 {
        reveal(Seq::filter);
        assert(kept.len() == 0);
        assert(Seq::new(0, |k: int| listed(outcomes[at + k], "paths"@)) =~= seq![]);
    } else {
        let before = files.take(count - 1);
        let kept_before = before.filter(wanted);
        assert(now.drop_last() =~= before);
        assert(now.last() == files[count - 1]);
        reveal(Seq::filter);
        assert(kept == if wanted(files[count - 1]) {
            kept_before.push(files[count - 1])
        } else {
            kept_before
        });
        assert forall|k: int, o: OutcomeView|
            0 <= k < kept_before.len() && !lists_paths(o, "paths"@) implies #[trigger] fault(k, o)
            == application_fault(kept_before[k], o) by {
            assert(kept[k] == kept_before[k]);
        }
        lemma_applications(files, count - 1, wanted, read, fine, fault, outcomes, at);
        let some = Seq::new(kept_before.len(), |k: int| listed(outcomes[at + k], "paths"@));
        let all = Seq::new(kept.len(), |k: int| listed(outcomes[at + k], "paths"@));
        if wanted(files[count - 1]) {
            let n = kept_before.len() as int;
            assert(kept.map_values(read) =~= kept_before.map_values(read).push(
                read(files[count - 1]),
            ));
            assert(all =~= some.push(listed(outcomes[at + n], "paths"@)));
            some.lemma_flatten_push(listed(outcomes[at + n], "paths"@));
            if at + n < outcomes.len() {
                assert(fine(n, outcomes[at + n]) == lists_paths(outcomes[at + n], "paths"@));
            }
        } else {
            assert(all =~= some);
            if applications_each(files, count - 1, outcomes, at) is Returns {
                let list = applications_each(files, count - 1, outcomes, at)->Returns_0;
                assert(list + Seq::<Seq<char>>::empty() =~= list);
            }
        }
    }
}

/// The error for an application's file that could not be used.
pub open spec fn application_fault(file: Seq<char>, o: OutcomeView) -> InitramfsErrorView {
    InitramfsErrorView::FactoryReset(
        match o {
            OutcomeView::Text(text) => FactoryResetErrorView::MissingField(
                match parsed_json(text) {
                    Ok(_) => file + ": no path object"@,
                    Err(e) => file + ": no path object ("@ + e + ")"@,
                },
            ),
            other => FactoryResetErrorView::InvalidConfig(
                "Failed to read "@ + file + ": "@ + reason_of(other),
            ),
        },
    )
}

/// Every entry of the applications' directory whose name ends in `.json` is read, in order,
/// and the paths of the applications are all that these files list, one list behind the
/// other. The first file that cannot be used ends it.
pub proof fn law_every_application_counts(
    files: Seq<Seq<char>>,
    outcomes: Seq<OutcomeView>,
    at: int,
)
    requires
        0 <= at <= outcomes.len(),
    ensures
        ({
            let kept = files.filter(|file: Seq<char>| extension_text(file) == Some("json"@));
            let paths = applications_each(files, files.len() as int, outcomes, at);
            &&& follows(
                paths,
                kept.map_values(|file: Seq<char>| EffectView::ReadText { path: file }),
                |k: int, o: OutcomeView| lists_paths(o, "paths"@),
                |k: int, o: OutcomeView| application_fault(kept[k], o),
                outcomes,
                at,
            )
            &&& match paths {
                Progress::Returns(list, _) => list == Seq::new(
                    kept.len(),
                    |k: int| listed(outcomes[at + k], "paths"@),
                ).flatten(),
                _ => true,
            }
        }),
{
    let wanted = |file: Seq<char>| extension_text(file) == Some("json"@);
    let kept = files.filter(wanted);
    assert(files.take(files.len() as int) =~= files);
    lemma_applications(
        files,
        files.len() as int,
        wanted,
        |file: Seq<char>| EffectView::ReadText { path: file },
        |k: int, o: OutcomeView| lists_paths(o, "paths"@),
        |k: int, o: OutcomeView| application_fault(kept[k], o),
        outcomes,
        at,
    );
}

/// The paths of the applications are those of all entries of their directory; none where
/// there is no such directory.
pub proof fn law_applications_are_those_of_their_directory(
    rootfs: Seq<char>,
    outcomes: Seq<OutcomeView>,
    at: int,
)
    requires
        0 <= at <= outcomes.len(),
    ensures
        ({
            let dir = join_text(rootfs, "etc/omnect/factory-reset.d"@);
            let paths = applications_progress(rootfs, outcomes, at);
            if at == outcomes.len() {
                paths == Progress::<Seq<Seq<char>>, InitramfsErrorView>::Asks(
                    EffectView::Exists { path: dir },
                )
            } else if outcomes[at] != OutcomeView::Flag(true) {
                paths == Progress::<Seq<Seq<char>>, InitramfsErrorView>::Returns(seq![], at + 1)
            } else if at + 1 == outcomes.len() {
                paths == Progress::<Seq<Seq<char>>, InitramfsErrorView>::Asks(
                    EffectView::ListDirectory { path: dir },
                )
            } else if let OutcomeView::Paths(files) = outcomes[at + 1] {
                paths == applications_each(files, files.len() as int, outcomes, at + 2)
            } else {
                paths == Progress::<Seq<Seq<char>>, InitramfsErrorView>::Fails(
                    InitramfsErrorView::FactoryReset(
                        FactoryResetErrorView::InvalidConfig(
                            "Failed to read "@ + dir + ": "@ + reason_of(outcomes[at + 1]),
                        ),
                    ),
                    at + 2,
                )
            }
        }),
{
}

/// The paths of a key are all strings of the list under it in the configuration file.
pub proof fn law_key_stands_for_its_list(
    key: Seq<char>,
    rootfs: Seq<char>,
    outcomes: Seq<OutcomeView>,
    at: int,
)
    requires
        0 <= at <= outcomes.len(),
    ensures
        ({
            let file = join_text(rootfs, "etc/omnect/factory-reset.json"@);
            &&& follows(
                key_progress(key, rootfs, outcomes, at),
                seq![EffectView::ReadText { path: file }],
                |k: int, o: OutcomeView| lists_paths(o, key),
                |k: int, o: OutcomeView|
                    InitramfsErrorView::FactoryReset(
                        match o {
                            OutcomeView::Text(text) => match parsed_json(text) {
                                Ok(_) => FactoryResetErrorView::MissingField(
                                    file + ": no "@ + key + " object"@,
                                ),
                                Err(e) => FactoryResetErrorView::InvalidConfig(
                                    "Failed to parse "@ + file + ": "@ + e,
                                ),
                            },
                            other => FactoryResetErrorView::InvalidConfig(
                                "Failed to read "@ + file + ": "@ + reason_of(other),
                            ),
                        },
                    ),
                outcomes,
                at,
            )
            &&& match key_progress(key, rootfs, outcomes, at) {
                Progress::Returns(list, _) => list == listed(outcomes[at], key),
                _ => true,
            }
        }),
{
}

proof fn lemma_preserve_of_prefix(
    keys: Seq<Seq<char>>,
    longer: Seq<Seq<char>>,
    count: int,
    rootfs: Seq<char>,
    outcomes: Seq<OutcomeView>,
    at: int,
)
    requires
        count <= keys.len() <= longer.len(),
        keys == longer.take(keys.len() as int),
    ensures
        preserve_each(longer, count, rootfs, outcomes, at) == preserve_each(
            keys,
            count,
            rootfs,
            outcomes,
            at,
        ),
    decreases count,
{
    if count > 0 {
        lemma_preserve_of_prefix(keys, longer, count - 1, rootfs, outcomes, at);
        assert(keys[count - 1] == longer[count - 1]);
    }
}

/// One key more adds its paths behind the list, and takes none away; the key `applications`
/// adds the paths of the applications, any other key those that the configuration file
/// lists under it. Without keys the list is the mandatory entry alone. The mode makes no
/// difference.
pub proof fn law_every_key_adds_its_paths(
    mode: u32,
    other_mode: u32,
    keys: Seq<Seq<char>>,
    key: Seq<char>,
    rootfs: Seq<char>,
    outcomes: Seq<OutcomeView>,
    at: int,
)
    ensures
        preserve_progress(
            FactoryResetConfigView { mode, preserve: seq![] },
            rootfs,
            outcomes,
            at,
        ) == Progress::<Seq<Seq<char>>, InitramfsErrorView>::Returns(
            seq!["/etc/omnect/factory-reset.d/"@],
            at,
        ),
        preserve_progress(
            FactoryResetConfigView { mode, preserve: keys.push(key) },
            rootfs,
            outcomes,
            at,
        ) == (match preserve_progress(
            FactoryResetConfigView { mode: other_mode, preserve: keys },
            rootfs,
            outcomes,
            at,
        ) {
            Progress::Returns(list, i) => match if key == "applications"@ {
                applications_progress(rootfs, outcomes, i)
            } else {
                key_progress(key, rootfs, outcomes, i)
            } {
                Progress::Returns(more, end) => Progress::Returns(list + more, end),
                stopped => stopped,
            },
            stopped => stopped,
        }),
{
    let longer = keys.push(key);
    assert(keys =~= longer.take(keys.len() as int));
    lemma_preserve_of_prefix(keys, longer, keys.len() as int, rootfs, outcomes, at);
}

}
