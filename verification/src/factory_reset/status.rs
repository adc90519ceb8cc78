//! Factory-reset status: written to a file in `/tmp`, from where it is merged
//! into the status that the device service reads.

use vstd::prelude::*;
use vstd::string::*;

use crate::effect::{
    doing, perform, progress, why_undone, Effect, EffectView, Outcome, OutcomeView, Progress, Stop,
};
use crate::error::{InitramfsError, InitramfsErrorView};
use crate::json::{quote, quoted};
use crate::number::{decimal, decimal_text};
use crate::text::{concat2, concat4, copy_of, join_with, joined};

pub mod status_code;

verus! {

/// The file that holds the factory-reset status.
pub const FACTORY_RESET_STATUS_TMP: &'static str = "/tmp/factory-reset.json";

/// How a factory reset went.
#[derive(Debug)]
pub struct FactoryResetStatus {
    pub status: u32,
    pub error: Option<String>,
    pub context: Option<String>,
    pub paths: Vec<String>,
}

/// A factory-reset status as mathematical text.
#[verifier::ext_equal]
pub struct FactoryResetStatusView {
    pub status: u32,
    pub error: Option<Seq<char>>,
    pub context: Option<Seq<char>>,
    pub paths: Seq<Seq<char>>,
}

impl DeepView for FactoryResetStatus {
    type V = FactoryResetStatusView;

    open spec fn deep_view(&self) -> FactoryResetStatusView {
        FactoryResetStatusView {
            status: self.status,
            error: self.error.deep_view(),
            context: self.context.deep_view(),
            paths: self.paths.deep_view(),
        }
    }
}

impl Clone for FactoryResetStatus {
    fn clone(&self) -> (r: FactoryResetStatus)
        ensures
            r.deep_view() == self.deep_view(),
    {
        FactoryResetStatus {
            status: self.status,
            error: copy_of_text(&self.error),
            context: copy_of_text(&self.context),
            paths: copy_of(&self.paths),
        }
    }
}

fn copy_of_text(text: &Option<String>) -> (r: Option<String>)
    ensures
        r.deep_view() == text.deep_view(),
{
    match text {
        Some(t) => Some(t.clone()),
        None => None,
    }
}

/// The JSON strings for a list of texts.
pub open spec fn each_quoted(list: Seq<Seq<char>>) -> Seq<Seq<char>> {
    list.map_values(|s: Seq<char>| quoted(s))
}

/// A further member of a JSON object, left out where there is no value.
pub open spec fn optional_member(start: Seq<char>, value: Option<Seq<char>>) -> Seq<char> {
    match value {
        Some(text) => start + quoted(text),
        None => Seq::empty(),
    }
}

impl FactoryResetStatusView {
    /// The status of a reset that went through without an error.
    pub open spec fn of_success(paths: Seq<Seq<char>>) -> FactoryResetStatusView {
        FactoryResetStatusView {
            status: status_code::SUCCESS,
            error: None,
            context: None,
            paths,
        }
    }

    /// The status of a reset with an error.
    pub open spec fn of_error(
        code: u32,
        error: Seq<char>,
        context: Option<Seq<char>>,
        paths: Seq<Seq<char>>,
    ) -> FactoryResetStatusView {
        FactoryResetStatusView { status: code, error: Some(error), context, paths }
    }

    /// The status as a JSON object on one line. Members without a value are left
    /// out, and so is an empty list of paths.
    pub open spec fn json(self) -> Seq<char> {
        let paths = if self.paths.len() == 0 {
            Seq::empty()
        } else {
            ",\"paths\":["@ + joined(","@, each_quoted(self.paths)) + "]"@
        };
        "{\"status\":"@ + decimal(self.status as nat) + optional_member(
            ",\"error\":"@,
            self.error,
        ) + optional_member(",\"context\":"@, self.context) + paths + "}"@
    }
}

impl FactoryResetStatus {
    /// The status of a reset that went through without an error.
    pub fn success(paths: Vec<String>) -> (r: FactoryResetStatus)
        ensures
            r.deep_view() == FactoryResetStatusView::of_success(paths.deep_view()),
    {
        FactoryResetStatus { status: status_code::SUCCESS, error: None, context: None, paths }
    }

    /// The status of a reset with an error.
    pub fn error(
        code: u32,
        error: &str,
        context: Option<String>,
        paths: Vec<String>,
    ) -> (r: FactoryResetStatus)
        ensures
            r.deep_view() == FactoryResetStatusView::of_error(
                code,
                error@,
                context.deep_view(),
                paths.deep_view(),
            ),
    {
        FactoryResetStatus { status: code, error: Some(error.to_owned()), context, paths }
    }

    /// Writes the status as a JSON object on one line.
    pub fn to_json(&self) -> (r: String)
        ensures
            r@ == self.deep_view().json(),
    {
        let mut out = concat2("{\"status\":", decimal_text(self.status).as_str());
        append_optional(&mut out, ",\"error\":", &self.error);
        append_optional(&mut out, ",\"context\":", &self.context);
        let ghost before = out@;
        if self.paths.len() > 0 {
            let quoted_paths = quote_each(&self.paths);
            out.append(",\"paths\":[");
            out.append(join_with(",", &quoted_paths).as_str());
            out.append("]");
            assert(out@ =~= before + (",\"paths\":["@ + joined(
                ","@,
                each_quoted(self.paths.deep_view()),
            ) + "]"@));
        } else {
            assert(out@ =~= before + Seq::<char>::empty());
        }
        out.append("}");
        out
    }
}

fn append_optional(out: &mut String, start: &str, value: &Option<String>)
    ensures
        final(out)@ == old(out)@ + optional_member(start@, value.deep_view()),
{
    if let Some(text) = value {
        let string = quote(text.as_str()).unwrap();
        out.append(start);
        out.append(string.as_str());
        assert(out@ =~= old(out)@ + (start@ + quoted(text@)));
    } else {
        assert(out@ =~= old(out)@ + Seq::<char>::empty());
    }
}

fn quote_each(list: &Vec<String>) -> (r: Vec<String>)
    ensures
        r.deep_view() == each_quoted(list.deep_view()),
{
    let mut out: Vec<String> = Vec::new();
    let mut i: usize = 0;
    while i < list.len()
        invariant
            i <= list@.len(),
            out@.len() == i,
            forall|k: int| 0 <= k < i ==> (#[trigger] out@[k])@ == quoted(list@[k]@),
        decreases list@.len() - i,
    {
        out.push(quote(list[i].as_str()).unwrap());
        i = i + 1;
    }
    assert(out.deep_view() =~= each_quoted(list.deep_view()));
    out
}

/// Marks the start of a factory reset: `null` as its status.
pub open spec fn null_status_progress(outcomes: Seq<OutcomeView>, at: int) -> Progress<
    (),
    InitramfsErrorView,
> {
    doing(
        EffectView::WriteText { path: FACTORY_RESET_STATUS_TMP@, text: "null"@ },
        |e: Seq<char>|
            InitramfsErrorView::Io(
                "Failed to write null status to "@ + FACTORY_RESET_STATUS_TMP@ + ": "@ + e,
            ),
        outcomes,
        at,
    )
}

/// Marks the start of a factory reset: a reset that is cut short leaves `null`
/// behind as its status.
pub fn write_null_status(outcomes: &Vec<Outcome>, at: &mut usize) -> (r: Result<
    (),
    Stop<InitramfsError>,
>)
    ensures
        progress(r, *final(at)) == null_status_progress(outcomes.deep_view(), *old(at) as int),
{
    let effect = Effect::WriteText {
        path: FACTORY_RESET_STATUS_TMP.to_owned(),
        text: "null".to_owned(),
    };
    if let Some(e) = why_undone(perform(effect, outcomes, at)?) {
        return Err(
            Stop::Fail(
                InitramfsError::Io(
                    concat4(
                        "Failed to write null status to ",
                        FACTORY_RESET_STATUS_TMP,
                        ": ",
                        e.as_str(),
                    ),
                ),
            ),
        );
    }
    Ok(())
}

/// Writes the status as JSON.
pub open spec fn status_progress(
    status: FactoryResetStatusView,
    outcomes: Seq<OutcomeView>,
    at: int,
) -> Progress<(), InitramfsErrorView> {
    doing(
        EffectView::WriteText { path: FACTORY_RESET_STATUS_TMP@, text: status.json() },
        |e: Seq<char>|
            InitramfsErrorView::Io(
                "Failed to write status to "@ + FACTORY_RESET_STATUS_TMP@ + ": "@ + e,
            ),
        outcomes,
        at,
    )
}

/// Writes the status as JSON.
pub fn write_status(
    status: &FactoryResetStatus,
    outcomes: &Vec<Outcome>,
    at: &mut usize,
) -> (r: Result<(), Stop<InitramfsError>>)
    ensures
        progress(r, *final(at)) == status_progress(
            status.deep_view(),
            outcomes.deep_view(),
            *old(at) as int,
        ),
{
    let effect = Effect::WriteText {
        path: FACTORY_RESET_STATUS_TMP.to_owned(),
        text: status.to_json(),
    };
    if let Some(e) = why_undone(perform(effect, outcomes, at)?) {
        return Err(
            Stop::Fail(
                InitramfsError::Io(
                    concat4(
                        "Failed to write status to ",
                        FACTORY_RESET_STATUS_TMP,
                        ": ",
                        e.as_str(),
                    ),
                ),
            ),
        );
    }
    Ok(())
}

}
