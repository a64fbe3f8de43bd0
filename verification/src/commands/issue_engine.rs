use vstd::prelude::*;
use vstd::string::*;

use crate::ids::strings_view;
use crate::json::{
    clone_json, data_member, entries_view, get_data_member, json_as_array, json_as_bool, json_as_str,
    entries_get, get_first, json_first, json_get, json_path, lemma_entries_view, lemma_values_view,
    values_view, JsonValue, JsonView,
};
use crate::text::{
    append_str, chars_of, int_text, int_to_string, join, push_joined, str_equal, strs_view, to_upper,
    upper,
};
use crate::time::{duration_spec, duration_too_large_message, format_timestamp, parse_duration, timestamp_text};

verus! {

/// The issue query shared by the issue and threat commands.
pub const ISSUES_QUERY: &'static str = "query Issues(\n  $first: Int\n  $after: String\n  $filterBy: IssueFilters\n  $orderBy: IssueOrder\n  $fetchThreatDetectionDetails: Boolean = false\n) {\n  issues: issuesV2(first: $first, after: $after, filterBy: $filterBy, orderBy: $orderBy) {\n    nodes {\n      id\n      type\n      status\n      severity\n      createdAt\n      updatedAt\n      resolvedAt\n      dueAt\n      rejectionExpiredAt\n      resolutionReason\n      resolutionNote\n      resolvedBy { user { email name } }\n      control { id name description severity }\n      projects { id name slug businessUnit riskProfile { businessImpact } }\n      entity { id name type }\n      entitySnapshot {\n        id type name nativeType cloudPlatform region\n        subscriptionName subscriptionExternalId externalId\n        kubernetesClusterName kubernetesNamespaceName tags\n      }\n      notes { id text }\n      serviceTickets { id externalId name url }\n      threatDetectionDetails @include(if: $fetchThreatDetectionDetails) {\n        actorsTotalCount\n        actors { id name type nativeType }\n        resourcesTotalCount\n        resources { id name type nativeType }\n        eventOrigin\n        detections(first: 0) { totalCount }\n        mainDetection {\n          id\n          startedAt\n          severity\n          description(format: MARKDOWN)\n          ruleMatch { rule { id name origins } }\n        }\n      }\n    }\n    pageInfo { hasNextPage endCursor }\n    totalCount\n  }\n}";

pub open spec fn severities() -> Seq<Seq<char>> {
    seq!["INFORMATIONAL"@, "LOW"@, "MEDIUM"@, "HIGH"@, "CRITICAL"@]
}

pub open spec fn statuses() -> Seq<Seq<char>> {
    seq!["OPEN"@, "IN_PROGRESS"@, "RESOLVED"@, "REJECTED"@]
}

pub open spec fn issue_types() -> Seq<Seq<char>> {
    seq![
        "TOXIC_COMBINATION"@,
        "THREAT_DETECTION"@,
        "CLOUD_CONFIGURATION"@,
        "ATTACK_SURFACE"@,
        "RISK_TOXIC_COMBINATION"@,
    ]
}

pub open spec fn resolution_reasons() -> Seq<Seq<char>> {
    seq![
        "OBJECT_DELETED"@,
        "ISSUE_FIXED"@,
        "CONTROL_CHANGED"@,
        "CONTROL_DISABLED"@,
        "CONTROL_DELETED"@,
        "FALSE_POSITIVE"@,
        "EXCEPTION"@,
        "WONT_FIX"@,
        "DETECTION_EXPIRED"@,
        "MALICIOUS_THREAT"@,
        "NOT_MALICIOUS_THREAT"@,
        "SECURITY_TEST_THREAT"@,
        "PLANNED_ACTION_THREAT"@,
        "INCONCLUSIVE_THREAT"@,
        "SEVERITY_CHANGED"@,
    ]
}

pub open spec fn business_impacts() -> Seq<Seq<char>> {
    seq!["LBI"@, "MBI"@, "HBI"@]
}

pub open spec fn stack_layers() -> Seq<Seq<char>> {
    seq![
        "APPLICATION_AND_DATA"@,
        "CI_CD"@,
        "SECURITY_AND_IDENTITY"@,
        "COMPUTE_PLATFORMS"@,
        "CODE"@,
        "CLOUD_ENTITLEMENTS"@,
        "DATA_STORES"@,
        "MACHINE_LEARNING_AND_AI"@,
        "NETWORKING"@,
    ]
}

pub fn severity_values() -> (v: Vec<&'static str>)
    ensures
        strs_view(v@) == severities(),
{
    let v = vec!["INFORMATIONAL", "LOW", "MEDIUM", "HIGH", "CRITICAL"];
    assert(strs_view(v@) =~= severities());
    v
}

pub fn status_values() -> (v: Vec<&'static str>)
    ensures
        strs_view(v@) == statuses(),
{
    let v = vec!["OPEN", "IN_PROGRESS", "RESOLVED", "REJECTED"];
    assert(strs_view(v@) =~= statuses());
    v
}

pub fn issue_type_values() -> (v: Vec<&'static str>)
    ensures
        strs_view(v@) == issue_types(),
{
    let v = vec![
        "TOXIC_COMBINATION",
        "THREAT_DETECTION",
        "CLOUD_CONFIGURATION",
        "ATTACK_SURFACE",
        "RISK_TOXIC_COMBINATION",
    ];
    assert(strs_view(v@) =~= issue_types());
    v
}

pub fn resolution_reason_values() -> (v: Vec<&'static str>)
    ensures
        strs_view(v@) == resolution_reasons(),
{
    let v = vec![
        "OBJECT_DELETED",
        "ISSUE_FIXED",
        "CONTROL_CHANGED",
        "CONTROL_DISABLED",
        "CONTROL_DELETED",
        "FALSE_POSITIVE",
        "EXCEPTION",
        "WONT_FIX",
        "DETECTION_EXPIRED",
        "MALICIOUS_THREAT",
        "NOT_MALICIOUS_THREAT",
        "SECURITY_TEST_THREAT",
        "PLANNED_ACTION_THREAT",
        "INCONCLUSIVE_THREAT",
        "SEVERITY_CHANGED",
    ];
    assert(strs_view(v@) =~= resolution_reasons());
    v
}

pub fn business_impact_values() -> (v: Vec<&'static str>)
    ensures
        strs_view(v@) == business_impacts(),
{
    let v = vec!["LBI", "MBI", "HBI"];
    assert(strs_view(v@) =~= business_impacts());
    v
}

pub fn stack_layer_values() -> (v: Vec<&'static str>)
    ensures
        strs_view(v@) == stack_layers(),
{
    let v = vec![
        "APPLICATION_AND_DATA",
        "CI_CD",
        "SECURITY_AND_IDENTITY",
        "COMPUTE_PLATFORMS",
        "CODE",
        "CLOUD_ENTITLEMENTS",
        "DATA_STORES",
        "MACHINE_LEARNING_AND_AI",
        "NETWORKING",
    ];
    assert(strs_view(v@) =~= stack_layers());
    v
}

/// Whether `value` is one of `valid`.
pub fn contains_str(valid: &Vec<&str>, value: &str) -> (r: bool)
    ensures
        r == strs_view(valid@).contains(value@),
{
    let mut i: usize = 0;
    while i < valid.len()
        invariant
            i <= valid.len(),
            forall|k: int| 0 <= k < i ==> strs_view(valid@)[k] != value@,
        decreases valid.len() - i,
    {
        if str_equal(valid[i], value) {
            assert(strs_view(valid@)[i as int] == value@);
            return true;
        }
        i = i + 1;
    }
    proof {
        if strs_view(valid@).contains(value@) {
            let k = choose|k: int| 0 <= k < strs_view(valid@).len() && strs_view(valid@)[k] == value@;
            assert(false);
        }
    }
    false
}

pub open spec fn invalid_enum_message(field: Seq<char>, value: Seq<char>, valid: Seq<Seq<char>>) -> Seq<char> {
    "invalid "@ + field + " '"@ + value + "'; valid values: "@ + join(valid, ", "@)
}

/// An enum value, case-insensitive: its upper case when that is one of
/// `valid`, else the message that names every valid value.
pub open spec fn validate_enum_spec(field: Seq<char>, value: Seq<char>, valid: Seq<Seq<char>>) -> Result<Seq<char>, Seq<char>> {
    if valid.contains(upper(value)) {
        Ok(upper(value))
    } else {
        Err(invalid_enum_message(field, value, valid))
    }
}

pub(crate) fn validate_enum(field: &str, value: &str, valid: &Vec<&str>) -> (r: Result<String, String>)
    ensures
        match validate_enum_spec(field@, value@, strs_view(valid@)) {
            Ok(n) => (r matches Ok(s) && s@ == n),
            Err(m) => (r matches Err(s) && s@ == m),
        },
{
    let normalized = to_upper(value);
    if contains_str(valid, normalized.as_str()) {
        Ok(normalized)
    } else {
        let mut msg = String::from_str("invalid ");
        append_str(&mut msg, field);
        append_str(&mut msg, " '");
        append_str(&mut msg, value);
        append_str(&mut msg, "'; valid values: ");
        push_joined(&mut msg, valid, ", ");
        Err(msg)
    }
}

} // verus!

verus! {

/// Filter arguments shared by the issue and threat listings.
#[derive(Clone, Debug, Default)]
pub struct IssueFilterArgs {
    pub id: Option<Vec<String>>,
    pub search: Option<String>,
    pub severity: Option<Vec<String>>,
    pub status: Option<Vec<String>>,
    pub issue_type: Option<Vec<String>>,
    pub project: Option<Vec<String>>,
    pub resolution_reason: Option<Vec<String>>,
    pub assignee: Option<Vec<String>>,
    pub environment: Option<Vec<String>>,
    pub project_business_impact: Option<Vec<String>>,
    pub stack_layer: Option<Vec<String>>,
    pub cloud_account: Option<Vec<String>>,
    pub has_note: bool,
    pub has_service_ticket: bool,
    pub note_contains: Option<String>,
    pub validated_as_exploitable: bool,
    pub threat_file_hash: Option<String>,
    pub threat_runtime_program_name: Option<String>,
    pub since: Option<String>,
    pub created_before: Option<String>,
    pub resolved_since: Option<String>,
    pub resolved_before: Option<String>,
    pub status_changed_since: Option<String>,
    pub due_before: Option<String>,
    pub due_since: Option<String>,
    pub threat_last_grouped_since: Option<String>,
}

pub type EntriesView = Seq<(Seq<char>, JsonView)>;

pub open spec fn opt_list(v: Option<Vec<String>>) -> Option<Seq<Seq<char>>> {
    match v {
        Some(items) => Some(strings_view(items@)),
        None => None,
    }
}

pub open spec fn opt_str(v: Option<String>) -> Option<Seq<char>> {
    match v {
        Some(s) => Some(s@),
        None => None,
    }
}

/// A JSON array of strings.
pub open spec fn str_array_view(items: Seq<Seq<char>>) -> JsonView {
    JsonView::Array(items.map_values(|s: Seq<char>| JsonView::Str(s)), None)
}

/// A list filter: present when it holds at least one value.
pub open spec fn then_list(r: Result<EntriesView, Seq<char>>, key: Seq<char>, value: Option<Seq<Seq<char>>>) -> Result<EntriesView, Seq<char>> {
    match r {
        Err(e) => Err(e),
        Ok(f) => Ok(
            match value {
                Some(vs) => if vs.len() > 0 {
                    f.push((key, str_array_view(vs)))
                } else {
                    f
                },
                None => f,
            },
        ),
    }
}

/// A text filter: present when given.
pub open spec fn then_string(r: Result<EntriesView, Seq<char>>, key: Seq<char>, value: Option<Seq<char>>) -> Result<EntriesView, Seq<char>> {
    match r {
        Err(e) => Err(e),
        Ok(f) => Ok(
            match value {
                Some(s) => f.push((key, JsonView::Str(s))),
                None => f,
            },
        ),
    }
}

/// A switch filter: `true` when set, absent otherwise.
pub open spec fn then_flag(r: Result<EntriesView, Seq<char>>, key: Seq<char>, flag: bool) -> Result<EntriesView, Seq<char>> {
    match r {
        Err(e) => Err(e),
        Ok(f) => Ok(
            if flag {
                f.push((key, JsonView::Bool(true)))
            } else {
                f
            },
        ),
    }
}

/// Every value validated in order; the first invalid one gives the error.
pub open spec fn validate_all(key: Seq<char>, vs: Seq<Seq<char>>, valid: Seq<Seq<char>>) -> Result<Seq<Seq<char>>, Seq<char>>
    decreases vs.len(),
{
    if vs.len() == 0 {
        Ok(Seq::empty())
    } else {
        match validate_all(key, vs.drop_last(), valid) {
            Err(e) => Err(e),
            Ok(ns) => match validate_enum_spec(key, vs.last(), valid) {
                Err(e) => Err(e),
                Ok(n) => Ok(ns.push(n)),
            },
        }
    }
}

/// An enum list filter: its values upper-cased and checked against `valid`.
pub open spec fn then_enum(r: Result<EntriesView, Seq<char>>, key: Seq<char>, value: Option<Seq<Seq<char>>>, valid: Seq<Seq<char>>) -> Result<EntriesView, Seq<char>> {
    match r {
        Err(e) => Err(e),
        Ok(f) => match value {
            None => Ok(f),
            Some(vs) => match validate_all(key, vs, valid) {
                Err(e) => Err(e),
                Ok(ns) => Ok(
                    if ns.len() > 0 {
                        f.push((key, str_array_view(ns)))
                    } else {
                        f
                    },
                ),
            },
        },
    }
}

/// The UTC time `d` before `now`.
pub open spec fn relative_spec(now: int, d: Seq<char>) -> Result<Seq<char>, Seq<char>> {
    match duration_spec(d) {
        Err(e) => Err(e),
        Ok(secs) => if now - secs >= i64::MIN {
            Ok(timestamp_text(now - secs))
        } else {
            Err(duration_too_large_message(d))
        },
    }
}

/// A date range `{after, before}` from its two bounds, each present when
/// given; `None` when neither is.
pub open spec fn date_range(after: Option<Seq<char>>, before: Option<Seq<char>>, now: int) -> Result<EntriesView, Seq<char>> {
    let a: Result<EntriesView, Seq<char>> = match after {
        None => Ok(Seq::empty()),
        Some(d) => match relative_spec(now, d) {
            Err(e) => Err(e),
            Ok(t) => Ok(seq![("after"@, JsonView::Str(t))]),
        },
    };
    match a {
        Err(e) => Err(e),
        Ok(range) => match before {
            None => Ok(range),
            Some(d) => match relative_spec(now, d) {
                Err(e) => Err(e),
                Ok(t) => Ok(range.push(("before"@, JsonView::Str(t)))),
            },
        },
    }
}

/// A date range filter `{after, before}`, present when either bound is given.
pub open spec fn then_range(r: Result<EntriesView, Seq<char>>, field: Seq<char>, after: Option<Seq<char>>, before: Option<Seq<char>>, now: int) -> Result<EntriesView, Seq<char>> {
    match r {
        Err(e) => Err(e),
        Ok(f) => match date_range(after, before, now) {
            Err(e) => Err(e),
            Ok(range) => Ok(
                if range.len() > 0 {
                    f.push((field, JsonView::Object(range, None)))
                } else {
                    f
                },
            ),
        },
    }
}

/// The filters before the date ranges.
pub open spec fn plain_filters_spec(a: IssueFilterArgs) -> Result<EntriesView, Seq<char>> {
    let r = Ok(Seq::empty());
    let r = then_list(r, "id"@, opt_list(a.id));
    let r = then_string(r, "search"@, opt_str(a.search));
    let r = then_enum(r, "severity"@, opt_list(a.severity), severities());
    let r = then_enum(r, "status"@, opt_list(a.status), statuses());
    let r = then_enum(r, "type"@, opt_list(a.issue_type), issue_types());
    let r = then_list(r, "project"@, opt_list(a.project));
    let r = then_enum(r, "resolutionReason"@, opt_list(a.resolution_reason), resolution_reasons());
    let r = then_list(r, "assignee"@, opt_list(a.assignee));
    let r = then_list(r, "environment"@, opt_list(a.environment));
    let r = then_enum(
        r,
        "projectBusinessImpact"@,
        opt_list(a.project_business_impact),
        business_impacts(),
    );
    let r = then_enum(r, "stackLayer"@, opt_list(a.stack_layer), stack_layers());
    let r = then_list(r, "cloudAccountOrCloudOrganizationId"@, opt_list(a.cloud_account));
    let r = then_flag(r, "hasNote"@, a.has_note);
    let r = then_flag(r, "hasServiceTicket"@, a.has_service_ticket);
    let r = then_string(r, "noteContains"@, opt_str(a.note_contains));
    let r = then_flag(r, "validatedAsExploitable"@, a.validated_as_exploitable);
    let r = then_string(r, "threatFileHash"@, opt_str(a.threat_file_hash));
    then_string(r, "threatRuntimeProgramName"@, opt_str(a.threat_runtime_program_name))
}

/// What `build_filters` gives for `a` at time `now`.
pub open spec fn filters_spec(a: IssueFilterArgs, now: int) -> Result<EntriesView, Seq<char>> {
    let r = plain_filters_spec(a);
    let r = then_range(r, "createdAt"@, opt_str(a.since), opt_str(a.created_before), now);
    let r = then_range(r, "resolvedAt"@, opt_str(a.resolved_since), opt_str(a.resolved_before), now);
    let r = then_range(r, "statusChangedAt"@, opt_str(a.status_changed_since), None, now);
    let r = then_range(r, "dueAt"@, opt_str(a.due_since), opt_str(a.due_before), now);
    then_range(r, "threatLastGroupedAt"@, opt_str(a.threat_last_grouped_since), None, now)
}

} // verus!

verus! {

/// Appends one entry to an object's entries.
pub fn push_entry(entries: &mut Vec<(String, JsonValue)>, key: &str, value: JsonValue)
    ensures
        entries_view(final(entries)@) == entries_view(old(entries)@).push((key@, value@)),
{
    let ghost before = entries@;
    let k = String::from_str(key);
    let ghost kv = k@;
    let ghost vv = value@;
    entries.push((k, value));
    assert(entries@.drop_last() =~= before);
}

/// A JSON array of the given strings.
pub fn string_array(items: &Vec<String>) -> (r: JsonValue)
    ensures
        r@ == str_array_view(strings_view(items@)),
{
    let mut values: Vec<JsonValue> = Vec::new();
    let mut i: usize = 0;
    while i < items.len()
        invariant
            i <= items.len(),
            values_view(values@) == strings_view(items@).take(i as int).map_values(
                |s: Seq<char>| JsonView::Str(s),
            ),
        decreases items.len() - i,
    {
        let ghost before = values@;
        let x = JsonValue::Str(items[i].clone());
        assert(x@ == JsonView::Str(items@[i as int]@));
        assert(strings_view(items@)[i as int] == items@[i as int]@);
        values.push(x);
        assert(values@.drop_last() =~= before);
        assert(values_view(values@) == values_view(before).push(x@));
        i = i + 1;
        assert(strings_view(items@).take(i as int).map_values(|s: Seq<char>| JsonView::Str(s))
            =~= strings_view(items@).take(i - 1).map_values(|s: Seq<char>| JsonView::Str(s)).push(
            JsonView::Str(items@[i - 1]@),
        ));
    }
    assert(strings_view(items@).take(items.len() as int) =~= strings_view(items@));
    JsonValue::array(values)
}

fn insert_string(filters: &mut Vec<(String, JsonValue)>, key: &str, value: &Option<String>)
    ensures
        then_string(Ok(entries_view(old(filters)@)), key@, opt_str(*value)) == Ok::<
            EntriesView,
            Seq<char>,
        >(entries_view(final(filters)@)),
{
    if let Some(v) = value {
        push_entry(filters, key, JsonValue::Str(v.clone()));
    }
}

fn insert_list(filters: &mut Vec<(String, JsonValue)>, key: &str, value: &Option<Vec<String>>)
    ensures
        then_list(Ok(entries_view(old(filters)@)), key@, opt_list(*value)) == Ok::<
            EntriesView,
            Seq<char>,
        >(entries_view(final(filters)@)),
{
    if let Some(values) = value {
        if values.len() > 0 {
            push_entry(filters, key, string_array(values));
        }
    }
}

fn insert_flag(filters: &mut Vec<(String, JsonValue)>, key: &str, flag: bool)
    ensures
        then_flag(Ok(entries_view(old(filters)@)), key@, flag) == Ok::<EntriesView, Seq<char>>(
            entries_view(final(filters)@),
        ),
{
    if flag {
        push_entry(filters, key, JsonValue::Bool(true));
    }
}

fn insert_enum_list(
    filters: &mut Vec<(String, JsonValue)>,
    key: &str,
    values: &Option<Vec<String>>,
    valid: &Vec<&str>,
) -> (res: Result<(), String>)
    ensures
        match then_enum(Ok(entries_view(old(filters)@)), key@, opt_list(*values), strs_view(valid@)) {
            Ok(f) => res is Ok && entries_view(final(filters)@) == f,
            Err(m) => (res matches Err(msg) && msg@ == m),
        },
{
    let list = match values {
        Some(v) => v,
        None => {
            return Ok(());
        },
    };
    let mut normalized: Vec<String> = Vec::new();
    let mut i: usize = 0;
    assert(strings_view(list@).take(0) =~= Seq::<Seq<char>>::empty());
    assert(strings_view(normalized@) =~= Seq::<Seq<char>>::empty());
    while i < list.len()
        invariant
            i <= list.len(),
            *values == Some(*list),
            validate_all(key@, strings_view(list@).take(i as int), strs_view(valid@)) == Ok::<
                Seq<Seq<char>>,
                Seq<char>,
            >(strings_view(normalized@)),
        decreases list.len() - i,
    {
        proof {
            assert(strings_view(list@).take(i + 1).drop_last() =~= strings_view(list@).take(
                i as int,
            ));
            assert(strings_view(list@).take(i + 1).last() == list@[i as int]@);
        }
        match validate_enum(key, list[i].as_str(), valid) {
            Ok(n) => {
                let ghost before = normalized@;
                normalized.push(n);
                assert(normalized@.drop_last() =~= before);
                assert(strings_view(normalized@) =~= strings_view(before).push(n@));
            },
            Err(e) => {
                proof {
                    lemma_validate_all_err_extends(
                        key@,
                        strings_view(list@),
                        strs_view(valid@),
                        i + 1,
                    );
                }
                return Err(e);
            },
        }
        i = i + 1;
    }
    assert(strings_view(list@).take(list.len() as int) =~= strings_view(list@));
    if normalized.len() > 0 {
        push_entry(filters, key, string_array(&normalized));
    }
    Ok(())
}

/// Once validation fails on a prefix, it fails on the whole list with the
/// same message.
proof fn lemma_validate_all_err_extends(key: Seq<char>, vs: Seq<Seq<char>>, valid: Seq<Seq<char>>, k: int)
    requires
        0 <= k <= vs.len(),
        validate_all(key, vs.take(k), valid) is Err,
    ensures
        validate_all(key, vs, valid) == validate_all(key, vs.take(k), valid),
    decreases vs.len() - k,
{
    if k < vs.len() {
        assert(vs.take(k + 1).drop_last() =~= vs.take(k));
        lemma_validate_all_err_extends(key, vs, valid, k + 1);
    } else {
        assert(vs.take(k) =~= vs);
    }
}

} // verus!

verus! {

/// The UTC timestamp `duration` before `now`.
pub fn relative_timestamp(now: i64, duration: &str) -> (res: Result<String, String>)
    ensures
        match relative_spec(now as int, duration@) {
            Ok(t) => (res matches Ok(s) && s@ == t),
            Err(m) => (res matches Err(msg) && msg@ == m),
        },
{
    let seconds = match parse_duration(duration) {
        Ok(s) => s,
        Err(e) => {
            return Err(e);
        },
    };
    if now < i64::MIN + seconds {
        let mut msg = String::from_str("duration '");
        append_str(&mut msg, duration);
        append_str(&mut msg, "' is too large");
        return Err(msg);
    }
    Ok(format_timestamp(now - seconds))
}

/// Adds one date range filter.
fn insert_date_range(
    filters: &mut Vec<(String, JsonValue)>,
    field: &str,
    after: &Option<String>,
    before: &Option<String>,
    now: i64,
) -> (res: Result<(), String>)
    ensures
        match then_range(
            Ok(entries_view(old(filters)@)),
            field@,
            opt_str(*after),
            opt_str(*before),
            now as int,
        ) {
            Ok(f) => res == Ok::<(), String>(()) && entries_view(final(filters)@) == f,
            Err(m) => (res matches Err(msg) && msg@ == m),
        },
{
    let mut range: Vec<(String, JsonValue)> = Vec::new();
    assert(entries_view(range@) =~= Seq::<(Seq<char>, JsonView)>::empty());
    if let Some(duration) = after {
        match relative_timestamp(now, duration.as_str()) {
            Ok(t) => {
                push_entry(&mut range, "after", JsonValue::Str(t));
                assert(entries_view(range@) =~= seq![("after"@, JsonView::Str(t@))]);
            },
            Err(e) => {
                return Err(e);
            },
        }
    }
    if let Some(duration) = before {
        match relative_timestamp(now, duration.as_str()) {
            Ok(t) => {
                push_entry(&mut range, "before", JsonValue::Str(t));
            },
            Err(e) => {
                return Err(e);
            },
        }
    }
    if range.len() > 0 {
        proof {
            lemma_entries_view(range@);
        }
        push_entry(filters, field, JsonValue::object(range));
    }
    Ok(())
}

/// The `filterBy` object for an issue listing, built from the filter
/// arguments; relative dates are taken back from `now`.
pub fn build_filters(args: &IssueFilterArgs, now: i64) -> (res: Result<Vec<(String, JsonValue)>, String>)
    ensures
        match filters_spec(*args, now as int) {
            Ok(f) => (res matches Ok(v) && entries_view(v@) == f),
            Err(m) => (res matches Err(msg) && msg@ == m),
        },
{
    let mut filters: Vec<(String, JsonValue)> = Vec::new();
    assert(entries_view(filters@) =~= Seq::<(Seq<char>, JsonView)>::empty());
    insert_list(&mut filters, "id", &args.id);
    insert_string(&mut filters, "search", &args.search);
    if let Err(e) = insert_enum_list(&mut filters, "severity", &args.severity, &severity_values()) {
        return Err(e);
    }
    if let Err(e) = insert_enum_list(&mut filters, "status", &args.status, &status_values()) {
        return Err(e);
    }
    if let Err(e) = insert_enum_list(&mut filters, "type", &args.issue_type, &issue_type_values()) {
        return Err(e);
    }
    insert_list(&mut filters, "project", &args.project);
    if let Err(e) = insert_enum_list(
        &mut filters,
        "resolutionReason",
        &args.resolution_reason,
        &resolution_reason_values(),
    ) {
        return Err(e);
    }
    insert_list(&mut filters, "assignee", &args.assignee);
    insert_list(&mut filters, "environment", &args.environment);
    if let Err(e) = insert_enum_list(
        &mut filters,
        "projectBusinessImpact",
        &args.project_business_impact,
        &business_impact_values(),
    ) {
        return Err(e);
    }
    if let Err(e) = insert_enum_list(
        &mut filters,
        "stackLayer",
        &args.stack_layer,
        &stack_layer_values(),
    ) {
        return Err(e);
    }
    insert_list(&mut filters, "cloudAccountOrCloudOrganizationId", &args.cloud_account);
    insert_flag(&mut filters, "hasNote", args.has_note);
    insert_flag(&mut filters, "hasServiceTicket", args.has_service_ticket);
    insert_string(&mut filters, "noteContains", &args.note_contains);
    insert_flag(&mut filters, "validatedAsExploitable", args.validated_as_exploitable);
    insert_string(&mut filters, "threatFileHash", &args.threat_file_hash);
    insert_string(&mut filters, "threatRuntimeProgramName", &args.threat_runtime_program_name);
    assert(plain_filters_spec(*args) == Ok::<EntriesView, Seq<char>>(entries_view(filters@)));
    if let Err(e) = insert_date_range(&mut filters, "createdAt", &args.since, &args.created_before, now) {
        return Err(e);
    }
    if let Err(e) = insert_date_range(
        &mut filters,
        "resolvedAt",
        &args.resolved_since,
        &args.resolved_before,
        now,
    ) {
        return Err(e);
    }
    if let Err(e) = insert_date_range(
        &mut filters,
        "statusChangedAt",
        &args.status_changed_since,
        &None,
        now,
    ) {
        return Err(e);
    }
    if let Err(e) = insert_date_range(&mut filters, "dueAt", &args.due_since, &args.due_before, now) {
        return Err(e);
    }
    if let Err(e) = insert_date_range(
        &mut filters,
        "threatLastGroupedAt",
        &args.threat_last_grouped_since,
        &None,
        now,
    ) {
        return Err(e);
    }
    Ok(filters)
}

} // verus!

verus! {

pub open spec fn order_by_view() -> JsonView {
    JsonView::Object(
        seq![("field"@, JsonView::Str("SEVERITY"@)), ("direction"@, JsonView::Str("DESC"@))],
        None,
    )
}

/// The variables of one issue query: `first`, severity order, whether to
/// fetch threat details, the filters when there are any, and the cursor.
pub open spec fn variables_spec(
    filters: EntriesView,
    first: int,
    after: Option<Seq<char>>,
    details: bool,
) -> Result<JsonView, Seq<char>> {
    if first > i64::MAX {
        Err("requested result count is too large"@)
    } else {
        let v = seq![
            ("first"@, JsonView::Number(int_text(first))),
            ("orderBy"@, order_by_view()),
            ("fetchThreatDetectionDetails"@, JsonView::Bool(details)),
        ];
        let v = if filters.len() > 0 {
            v.push(("filterBy"@, JsonView::Object(filters, None)))
        } else {
            v
        };
        let v = match after {
            Some(a) => v.push(("after"@, JsonView::Str(a))),
            None => v,
        };
        Ok(JsonView::Object(v, None))
    }
}

/// Builds the variables of an issue query.
pub fn build_variables(
    filters: Vec<(String, JsonValue)>,
    first: usize,
    after: Option<&str>,
    fetch_threat_detection_details: bool,
) -> (res: Result<JsonValue, String>)
    ensures
        match variables_spec(
            entries_view(filters@),
            first as int,
            match after {
                Some(a) => Some(a@),
                None => None,
            },
            fetch_threat_detection_details,
        ) {
            Ok(v) => (res matches Ok(x) && x@ == v),
            Err(m) => (res matches Err(msg) && msg@ == m),
        },
{
    if first as u64 > 9223372036854775807u64 {
        return Err(String::from_str("requested result count is too large"));
    }
    let ghost fv = entries_view(filters@);
    let mut variables: Vec<(String, JsonValue)> = Vec::new();
    assert(entries_view(variables@) =~= Seq::<(Seq<char>, JsonView)>::empty());
    push_entry(&mut variables, "first", JsonValue::Number(int_to_string(first as i64)));
    let mut order: Vec<(String, JsonValue)> = Vec::new();
    assert(entries_view(order@) =~= Seq::<(Seq<char>, JsonView)>::empty());
    push_entry(&mut order, "field", JsonValue::string("SEVERITY"));
    push_entry(&mut order, "direction", JsonValue::string("DESC"));
    assert(entries_view(order@) =~= seq![
        ("field"@, JsonView::Str("SEVERITY"@)),
        ("direction"@, JsonView::Str("DESC"@)),
    ]);
    push_entry(&mut variables, "orderBy", JsonValue::object(order));
    push_entry(
        &mut variables,
        "fetchThreatDetectionDetails",
        JsonValue::Bool(fetch_threat_detection_details),
    );
    if filters.len() > 0 {
        proof {
            lemma_entries_view(filters@);
        }
        push_entry(&mut variables, "filterBy", JsonValue::object(filters));
    } else {
        proof {
            lemma_entries_view(filters@);
        }
    }
    if let Some(a) = after {
        push_entry(&mut variables, "after", JsonValue::string(a));
    }
    let ghost base = seq![
        ("first"@, JsonView::Number(int_text(first as int))),
        ("orderBy"@, order_by_view()),
        ("fetchThreatDetectionDetails"@, JsonView::Bool(fetch_threat_detection_details)),
    ];
    let ghost v1 = if fv.len() > 0 {
        base.push(("filterBy"@, JsonView::Object(fv, None)))
    } else {
        base
    };
    let ghost v2 = match after {
        Some(a) => v1.push(("after"@, JsonView::Str(a@))),
        None => v1,
    };
    assert(entries_view(variables@) =~= v2);
    let r = JsonValue::object(variables);
    Ok(r)
}

/// The filters of a threat listing: the issue filters with the type pinned
/// to `THREAT_DETECTION`; an explicit type is refused.
pub open spec fn threat_filters_spec(a: IssueFilterArgs, now: int) -> Result<EntriesView, Seq<char>> {
    if a.issue_type is Some {
        Err("--type cannot be used with threats; type is fixed to THREAT_DETECTION"@)
    } else {
        match filters_spec(a, now) {
            Err(e) => Err(e),
            Ok(f) => Ok(f.push(("type"@, str_array_view(seq!["THREAT_DETECTION"@])))),
        }
    }
}

pub fn pin_threat_filter(args: &IssueFilterArgs, now: i64) -> (res: Result<Vec<(String, JsonValue)>, String>)
    ensures
        match threat_filters_spec(*args, now as int) {
            Ok(f) => (res matches Ok(v) && entries_view(v@) == f),
            Err(m) => (res matches Err(msg) && msg@ == m),
        },
{
    if args.issue_type.is_some() {
        return Err(
            String::from_str("--type cannot be used with threats; type is fixed to THREAT_DETECTION"),
        );
    }
    let mut filters = match build_filters(args, now) {
        Ok(f) => f,
        Err(e) => {
            return Err(e);
        },
    };
    let mut types: Vec<String> = Vec::new();
    types.push(String::from_str("THREAT_DETECTION"));
    assert(strings_view(types@) =~= seq!["THREAT_DETECTION"@]);
    push_entry(&mut filters, "type", string_array(&types));
    Ok(filters)
}

/// The filters of a listing: a threat listing's when `threat_mode` is set,
/// else an issue listing's.
pub fn list_filters(args: &IssueFilterArgs, now: i64, threat_mode: bool) -> (res: Result<Vec<(String, JsonValue)>, String>)
    ensures
        match (if threat_mode {
            threat_filters_spec(*args, now as int)
        } else {
            filters_spec(*args, now as int)
        }) {
            Ok(f) => (res matches Ok(v) && entries_view(v@) == f),
            Err(m) => (res matches Err(msg) && msg@ == m),
        },
{
    if threat_mode {
        pin_threat_filter(args, now)
    } else {
        build_filters(args, now)
    }
}

} // verus!

verus! {

/// The largest page the listing asks for.
pub open spec fn max_page() -> int {
    500
}

/// `{"hasNextPage": false, "endCursor": null}`.
pub open spec fn no_next_page() -> JsonView {
    JsonView::Object(
        seq![("hasNextPage"@, JsonView::Bool(false)), ("endCursor"@, JsonView::Null)],
        None,
    )
}

/// The combined listing that the command prints.
pub open spec fn connection_output(nodes: Seq<JsonView>, page_info: JsonView, total: JsonView) -> JsonView {
    JsonView::Object(
        seq![
            ("nodes"@, JsonView::Array(nodes, None)),
            ("pageInfo"@, page_info),
            ("totalCount"@, total),
        ],
        None,
    )
}

/// The paging state of an issue listing: what has been fetched so far and
/// where the next page starts.
pub struct IssuePager {
    filters: Vec<(String, JsonValue)>,
    number: usize,
    all: bool,
    details: bool,
    nodes: Vec<JsonValue>,
    after: Option<String>,
    total_count: JsonValue,
    page_info: JsonValue,
    finished: bool,
}

pub struct PagerView {
    pub filters: EntriesView,
    pub number: nat,
    pub all: bool,
    pub details: bool,
    pub nodes: Seq<JsonView>,
    pub after: Option<Seq<char>>,
    pub total_count: JsonView,
    pub page_info: JsonView,
    pub finished: bool,
}

impl View for IssuePager {
    type V = PagerView;

    closed spec fn view(&self) -> PagerView {
        PagerView {
            filters: entries_view(self.filters@),
            number: self.number as nat,
            all: self.all,
            details: self.details,
            nodes: values_view(self.nodes@),
            after: opt_str(self.after),
            total_count: self.total_count@,
            page_info: self.page_info@,
            finished: self.finished,
        }
    }
}

/// What the paging loop does next.
pub enum PageStep {
    /// Ask for the next page with these variables.
    Request(JsonValue),
    /// Stop and print this listing.
    Done(JsonValue),
}

pub enum PageStepView {
    Request(JsonView),
    Done(JsonView),
}

/// How many records the next page asks for: 500 with `--all`, else what is
/// still missing of `number`, at most 500.
pub open spec fn page_request_size(p: PagerView) -> int {
    if p.all {
        max_page()
    } else {
        let left = if p.number >= p.nodes.len() {
            p.number - p.nodes.len()
        } else {
            0
        };
        if left < max_page() {
            left
        } else {
            max_page()
        }
    }
}

/// The next step of a listing in state `p`.
pub open spec fn page_step_spec(p: PagerView) -> Result<PageStepView, Seq<char>> {
    if !p.all && p.number == 0 {
        Ok(PageStepView::Done(connection_output(Seq::empty(), no_next_page(), JsonView::Number("0"@))))
    } else if p.finished || page_request_size(p) == 0 {
        Ok(PageStepView::Done(connection_output(p.nodes, p.page_info, p.total_count)))
    } else {
        match variables_spec(p.filters, page_request_size(p), p.after, p.details) {
            Err(e) => Err(e),
            Ok(v) => Ok(PageStepView::Request(v)),
        }
    }
}

/// The state after a page `response` arrives, or the error that ends the listing.
pub open spec fn record_page_spec(p: PagerView, response: JsonView) -> Result<PagerView, Seq<char>> {
    match data_member(response, "issues"@) {
        None => Err("Wiz response is missing data.issues"@),
        Some(conn) => match json_as_array(json_get(conn, "nodes"@)) {
            None => Err("Wiz response is missing data.issues.nodes"@),
            Some(page) => {
                let nodes = p.nodes + page;
                let total = match json_get(conn, "totalCount"@) {
                    Some(t) => t,
                    None => JsonView::Null,
                };
                match json_get(conn, "pageInfo"@) {
                    None => Err("Wiz response is missing data.issues.pageInfo"@),
                    Some(info) => {
                        let has_next = match json_as_bool(json_get(info, "hasNextPage"@)) {
                            Some(b) => b,
                            None => false,
                        };
                        if !has_next || (!p.all && nodes.len() >= p.number) {
                            Ok(
                                PagerView {
                                    nodes: nodes,
                                    total_count: total,
                                    page_info: info,
                                    finished: true,
                                    ..p
                                },
                            )
                        } else {
                            match json_as_str(json_get(info, "endCursor"@)) {
                                None => Err("Wiz response has no endCursor for the next page"@),
                                Some(c) => Ok(
                                    PagerView {
                                        nodes: nodes,
                                        total_count: total,
                                        page_info: info,
                                        after: Some(c),
                                        ..p
                                    },
                                ),
                            }
                        }
                    },
                }
            },
        },
    }
}

pub fn no_next_page_value() -> (r: JsonValue)
    ensures
        r@ == no_next_page(),
{
    let mut e: Vec<(String, JsonValue)> = Vec::new();
    assert(entries_view(e@) =~= Seq::<(Seq<char>, JsonView)>::empty());
    push_entry(&mut e, "hasNextPage", JsonValue::Bool(false));
    push_entry(&mut e, "endCursor", JsonValue::Null);
    assert(entries_view(e@) =~= seq![
        ("hasNextPage"@, JsonView::Bool(false)),
        ("endCursor"@, JsonView::Null),
    ]);
    JsonValue::object(e)
}

pub fn connection_value(nodes: Vec<JsonValue>, page_info: JsonValue, total: JsonValue) -> (r: JsonValue)
    ensures
        r@ == connection_output(values_view(nodes@), page_info@, total@),
{
    let ghost nv = values_view(nodes@);
    let ghost pv = page_info@;
    let ghost tv = total@;
    let mut e: Vec<(String, JsonValue)> = Vec::new();
    assert(entries_view(e@) =~= Seq::<(Seq<char>, JsonView)>::empty());
    push_entry(&mut e, "nodes", JsonValue::array(nodes));
    push_entry(&mut e, "pageInfo", page_info);
    push_entry(&mut e, "totalCount", total);
    assert(entries_view(e@) =~= seq![
        ("nodes"@, JsonView::Array(nv, None)),
        ("pageInfo"@, pv),
        ("totalCount"@, tv),
    ]);
    JsonValue::object(e)
}

fn clone_entries(v: &Vec<(String, JsonValue)>) -> (r: Vec<(String, JsonValue)>)
    ensures
        entries_view(r@) == entries_view(v@),
{
    let mut out: Vec<(String, JsonValue)> = Vec::new();
    let mut i: usize = 0;
    while i < v.len()
        invariant
            i <= v.len(),
            entries_view(out@) == entries_view(v@.take(i as int)),
        decreases v.len() - i,
    {
        let x = clone_json(&v[i].1);
        let k = v[i].0.clone();
        let ghost before = out@;
        out.push((k, x));
        assert(out@.drop_last() =~= before);
        assert(v@.take(i + 1).drop_last() =~= v@.take(i as int));
        i = i + 1;
    }
    assert(v@.take(v.len() as int) =~= v@);
    out
}

pub fn clone_values(v: &Vec<JsonValue>) -> (r: Vec<JsonValue>)
    ensures
        values_view(r@) == values_view(v@),
{
    let mut out: Vec<JsonValue> = Vec::new();
    let mut i: usize = 0;
    while i < v.len()
        invariant
            i <= v.len(),
            values_view(out@) == values_view(v@.take(i as int)),
        decreases v.len() - i,
    {
        let x = clone_json(&v[i]);
        let ghost before = out@;
        out.push(x);
        assert(out@.drop_last() =~= before);
        assert(v@.take(i + 1).drop_last() =~= v@.take(i as int));
        i = i + 1;
    }
    assert(v@.take(v.len() as int) =~= v@);
    out
}

impl IssuePager {
    /// A listing of up to `number` issues (all of them with `all`) matching
    /// `filters`, with threat details when `details` is set.
    pub fn new(filters: Vec<(String, JsonValue)>, number: usize, all: bool, details: bool) -> (r: IssuePager)
        ensures
            r@ == (PagerView {
                filters: entries_view(filters@),
                number: number as nat,
                all: all,
                details: details,
                nodes: Seq::empty(),
                after: None,
                total_count: JsonView::Null,
                page_info: no_next_page(),
                finished: false,
            }),
    {
        let r = IssuePager {
            filters,
            number,
            all,
            details,
            nodes: Vec::new(),
            after: None,
            total_count: JsonValue::Null,
            page_info: no_next_page_value(),
            finished: false,
        };
        assert(values_view(r.nodes@) =~= Seq::<JsonView>::empty());
        r
    }

    /// What to do next: ask for a page, or stop with the combined listing.
    pub fn step(&self) -> (res: Result<PageStep, String>)
        ensures
            match page_step_spec(self@) {
                Ok(PageStepView::Request(v)) => (res matches Ok(PageStep::Request(x)) && x@ == v),
                Ok(PageStepView::Done(v)) => (res matches Ok(PageStep::Done(x)) && x@ == v),
                Err(m) => (res matches Err(msg) && msg@ == m),
            },
    {
        if !self.all && self.number == 0 {
            let empty: Vec<JsonValue> = Vec::new();
            assert(values_view(empty@) =~= Seq::<JsonView>::empty());
            return Ok(
                PageStep::Done(
                    connection_value(
                        empty,
                        no_next_page_value(),
                        JsonValue::Number(String::from_str("0")),
                    ),
                ),
            );
        }
        proof {
            lemma_values_view(self.nodes@);
        }
        let remaining: usize = if self.all {
            500
        } else {
            let left = if self.number >= self.nodes.len() {
                self.number - self.nodes.len()
            } else {
                0
            };
            if left < 500 {
                left
            } else {
                500
            }
        };
        if self.finished || remaining == 0 {
            return Ok(
                PageStep::Done(
                    connection_value(
                        clone_values(&self.nodes),
                        clone_json(&self.page_info),
                        clone_json(&self.total_count),
                    ),
                ),
            );
        }
        let after: Option<&str> = match &self.after {
            Some(a) => Some(a.as_str()),
            None => None,
        };
        match build_variables(clone_entries(&self.filters), remaining, after, self.details) {
            Ok(v) => Ok(PageStep::Request(v)),
            Err(e) => Err(e),
        }
    }

    /// Takes in the response to the last page request.
    pub fn record_page(&mut self, response: &JsonValue) -> (res: Result<(), String>)
        ensures
            match record_page_spec(old(self)@, response@) {
                Ok(p) => res is Ok && final(self)@ == p,
                Err(m) => (res matches Err(msg) && msg@ == m),
            },
    {
        let conn = match get_data_member(response, "issues") {
            Some(c) => c,
            None => {
                return Err(String::from_str("Wiz response is missing data.issues"));
            },
        };
        let page = match conn.get("nodes") {
            Some(n) => match n.as_array() {
                Some(p) => p,
                None => {
                    return Err(String::from_str("Wiz response is missing data.issues.nodes"));
                },
            },
            None => {
                return Err(String::from_str("Wiz response is missing data.issues.nodes"));
            },
        };
        let ghost before = values_view(self.nodes@);
        let mut i: usize = 0;
        while i < page.len()
            invariant
                i <= page.len(),
                values_view(self.nodes@) == before + values_view(page@.take(i as int)),
                self.filters == old(self).filters,
                self.number == old(self).number,
                self.all == old(self).all,
                self.details == old(self).details,
                self.after == old(self).after,
                self.finished == old(self).finished,
                before == values_view(old(self).nodes@),
            decreases page.len() - i,
        {
            let x = clone_json(&page[i]);
            let ghost prev = self.nodes@;
            self.nodes.push(x);
            assert(self.nodes@.drop_last() =~= prev);
            assert(page@.take(i + 1).drop_last() =~= page@.take(i as int));
            assert(values_view(page@.take(i + 1)) == values_view(page@.take(i as int)).push(page@[i as int]@));
            i = i + 1;
            assert(values_view(self.nodes@) =~= before + values_view(page@.take(i as int)));
        }
        assert(page@.take(page.len() as int) =~= page@);
        self.total_count = match conn.get("totalCount") {
            Some(t) => clone_json(t),
            None => JsonValue::Null,
        };
        let info = match conn.get("pageInfo") {
            Some(p) => p,
            None => {
                return Err(String::from_str("Wiz response is missing data.issues.pageInfo"));
            },
        };
        self.page_info = clone_json(info);
        let has_next = match info.get("hasNextPage") {
            Some(h) => match h.as_bool() {
                Some(b) => b,
                None => false,
            },
            None => false,
        };
        proof {
            lemma_values_view(self.nodes@);
        }
        if !has_next || (!self.all && self.nodes.len() >= self.number) {
            self.finished = true;
            return Ok(());
        }
        match info.get("endCursor") {
            Some(c) => match c.as_str() {
                Some(s) => {
                    self.after = Some(String::from_str(s));
                    Ok(())
                },
                None => Err(String::from_str("Wiz response has no endCursor for the next page")),
            },
            None => Err(String::from_str("Wiz response has no endCursor for the next page")),
        }
    }
}

} // verus!

verus! {

/// The variables that fetch one issue by ID.
pub fn fetch_one_variables(id: &str, details: bool) -> (res: Result<JsonValue, String>)
    ensures
        match variables_spec(seq![("id"@, str_array_view(seq![id@]))], 1, None, details) {
            Ok(v) => (res matches Ok(x) && x@ == v),
            Err(m) => (res matches Err(msg) && msg@ == m),
        },
{
    let mut ids: Vec<String> = Vec::new();
    ids.push(String::from_str(id));
    assert(strings_view(ids@) =~= seq![id@]);
    let mut filters: Vec<(String, JsonValue)> = Vec::new();
    assert(entries_view(filters@) =~= Seq::<(Seq<char>, JsonView)>::empty());
    push_entry(&mut filters, "id", string_array(&ids));
    assert(entries_view(filters@) =~= seq![("id"@, str_array_view(seq![id@]))]);
    build_variables(filters, 1, None, details)
}

/// The first issue of a query response, `data.issues.nodes[0]`.
pub open spec fn first_issue_spec(response: JsonView) -> Option<JsonView> {
    match json_path(response, seq!["data"@, "issues"@, "nodes"@]) {
        Some(nodes) => json_first(nodes),
        None => None,
    }
}

/// The issue named `id` in a response to `fetch_one_variables`.
pub fn first_issue(response: &JsonValue, id: &str) -> (res: Result<JsonValue, String>)
    ensures
        match first_issue_spec(response@) {
            Some(v) => (res matches Ok(x) && x@ == v),
            None => (res matches Err(msg) && msg@ == "issue '"@ + id@ + "' was not found"@),
        },
{
    proof {
        reveal_with_fuel(json_path, 4);
        assert(seq!["data"@, "issues"@, "nodes"@].drop_last() =~= seq!["data"@, "issues"@]);
        assert(seq!["data"@, "issues"@].drop_last() =~= seq!["data"@]);
        assert(seq!["data"@].drop_last() =~= Seq::<Seq<char>>::empty());
    }
    let found = match get_data_member(response, "issues") {
        Some(issues) => match issues.get("nodes") {
            Some(nodes) => get_first(nodes),
            None => None,
        },
        None => None,
    };
    match found {
        Some(v) => Ok(clone_json(v)),
        None => {
            let mut msg = String::from_str("issue '");
            append_str(&mut msg, id);
            append_str(&mut msg, "' was not found");
            Err(msg)
        },
    }
}

/// The variables that fetch the issues named by `ids`, all on one page.
pub fn fetch_types_variables(ids: &Vec<String>) -> (res: Result<JsonValue, String>)
    ensures
        match variables_spec(
            seq![("id"@, str_array_view(strings_view(ids@)))],
            ids.len() as int,
            None,
            false,
        ) {
            Ok(v) => (res matches Ok(x) && x@ == v),
            Err(m) => (res matches Err(msg) && msg@ == m),
        },
{
    let mut filters: Vec<(String, JsonValue)> = Vec::new();
    assert(entries_view(filters@) =~= Seq::<(Seq<char>, JsonView)>::empty());
    push_entry(&mut filters, "id", string_array(ids));
    assert(entries_view(filters@) =~= seq![("id"@, str_array_view(strings_view(ids@)))]);
    build_variables(filters, ids.len(), None, false)
}

/// The issues of a query response, `data.issues.nodes`.
pub fn issue_nodes(response: &JsonValue) -> (res: Result<Vec<JsonValue>, String>)
    ensures
        match json_as_array(json_path(response@, seq!["data"@, "issues"@, "nodes"@])) {
            Some(nodes) => (res matches Ok(v) && values_view(v@) == nodes),
            None => (res matches Err(msg) && msg@ == "Wiz response is missing data.issues.nodes"@),
        },
{
    proof {
        reveal_with_fuel(json_path, 4);
        assert(seq!["data"@, "issues"@, "nodes"@].drop_last() =~= seq!["data"@, "issues"@]);
        assert(seq!["data"@, "issues"@].drop_last() =~= seq!["data"@]);
        assert(seq!["data"@].drop_last() =~= Seq::<Seq<char>>::empty());
    }
    let nodes = match get_data_member(response, "issues") {
        Some(issues) => match issues.get("nodes") {
            Some(n) => n.as_array(),
            None => None,
        },
        None => None,
    };
    match nodes {
        Some(v) => Ok(clone_values(v)),
        None => Err(String::from_str("Wiz response is missing data.issues.nodes")),
    }
}

} // verus!

verus! {

/// Enum values are case-insensitive: two spellings with the same upper case
/// are accepted or refused together, and accepted as the same value, which
/// is the upper-case spelling and one of the valid values.
pub proof fn lemma_enum_case_insensitive(field: Seq<char>, a: Seq<char>, b: Seq<char>, valid: Seq<Seq<char>>)
    requires
        upper(a) == upper(b),
    ensures
        validate_enum_spec(field, a, valid) is Ok <==> validate_enum_spec(field, b, valid) is Ok,
        validate_enum_spec(field, a, valid) matches Ok(x) ==> (validate_enum_spec(field, b, valid)
            == Ok::<Seq<char>, Seq<char>>(x) && valid.contains(x) && x == upper(a)),
{
}

/// A threat listing filters exactly as an issue listing with the same
/// arguments, plus the type pinned to `THREAT_DETECTION`; an explicit type
/// is refused.
pub proof fn lemma_threat_filters_pin_type(a: IssueFilterArgs, now: int)
    ensures
        a.issue_type is Some ==> threat_filters_spec(a, now) == Err::<EntriesView, Seq<char>>(
            "--type cannot be used with threats; type is fixed to THREAT_DETECTION"@,
        ),
        a.issue_type is None ==> (filters_spec(a, now) matches Ok(f) ==> threat_filters_spec(a, now)
            == Ok::<EntriesView, Seq<char>>(f.push(("type"@, str_array_view(seq!["THREAT_DETECTION"@]))))),
        a.issue_type is None ==> (filters_spec(a, now) matches Err(e) ==> threat_filters_spec(a, now)
            == Err::<EntriesView, Seq<char>>(e)),
{
}

/// Every page request asks for 1 to 500 records, and without `--all` never
/// for more than are still missing of the requested number.
pub proof fn lemma_page_requests_bounded(p: PagerView)
    ensures
        page_step_spec(p) matches Ok(PageStepView::Request(v)) ==> {
            &&& 1 <= page_request_size(p) <= max_page()
            &&& (!p.all ==> p.nodes.len() + page_request_size(p) <= p.number)
            &&& variables_spec(p.filters, page_request_size(p), p.after, p.details) == Ok::<
                JsonView,
                Seq<char>,
            >(v)
        },
{
}

/// A recorded page keeps every node already fetched, in order, and adds
/// the page's nodes after them.
pub proof fn lemma_record_page_appends(p: PagerView, response: JsonView)
    ensures
        record_page_spec(p, response) matches Ok(q) ==> (q.nodes.len() >= p.nodes.len()
            && q.nodes.take(p.nodes.len() as int) == p.nodes && q.filters == p.filters
            && q.number == p.number && q.all == p.all && q.details == p.details),
{
    if let Ok(q) = record_page_spec(p, response) {
        assert(q.nodes.take(p.nodes.len() as int) =~= p.nodes);
    }
}

/// With `--all` the requested number plays no part: the same requests are
/// made and the same pages recorded whatever it is.
pub proof fn lemma_all_ignores_number(p: PagerView, number: nat, response: JsonView)
    requires
        p.all,
    ensures
        page_step_spec(PagerView { number: number, ..p }) == page_step_spec(p),
        record_page_spec(PagerView { number: number, ..p }, response) == (match record_page_spec(p, response) {
            Ok(q) => Ok(PagerView { number: number, ..q }),
            Err(m) => Err(m),
        }),
{
}

/// Once a listing is finished it asks for nothing more.
pub proof fn lemma_finished_listing_stops(p: PagerView)
    requires
        p.finished,
    ensures
        page_step_spec(p) matches Ok(PageStepView::Done(_)),
{
}

} // verus!

verus! {

/// No key occurs twice among an object's entries.
pub open spec fn keys_distinct(f: EntriesView) -> bool {
    forall|i: int, j: int| 0 <= i < j < f.len() ==> #[trigger] f[i].0 != #[trigger] f[j].0
}

/// In entries without a repeated key, the member named by an entry's key is
/// that entry's value.
pub proof fn lemma_get_at(f: EntriesView, i: int)
    requires
        keys_distinct(f),
        0 <= i < f.len(),
    ensures
        entries_get(f, f[i].0) == Some(f[i].1),
    decreases i,
{
    if i > 0 {
        assert(f[0].0 != f[i].0);
        let g = f.drop_first();
        assert forall|a: int, b: int| 0 <= a < b < g.len() implies #[trigger] g[a].0 != #[trigger] g[b].0 by {
            assert(g[a] == f[a + 1] && g[b] == f[b + 1]);
        }
        assert(g[i - 1] == f[i]);
        lemma_get_at(g, i - 1);
    }
}

/// Every key of `f` is one of `allowed`.
spec fn keys_within(f: EntriesView, allowed: Seq<Seq<char>>) -> bool {
    forall|i: int| 0 <= i < f.len() ==> allowed.contains(#[trigger] f[i].0)
}

/// Filters built so far, if any, have distinct keys among `allowed`.
spec fn fresh_so_far(r: Result<EntriesView, Seq<char>>, allowed: Seq<Seq<char>>) -> bool {
    r matches Ok(f) ==> keys_distinct(f) && keys_within(f, allowed)
}

proof fn lemma_within_grows(f: EntriesView, allowed: Seq<Seq<char>>, key: Seq<char>)
    requires
        keys_within(f, allowed),
    ensures
        keys_within(f, allowed.push(key)),
{
    assert forall|i: int| 0 <= i < f.len() implies allowed.push(key).contains(#[trigger] f[i].0) by {
        let k = choose|k: int| 0 <= k < allowed.len() && allowed[k] == f[i].0;
        assert(allowed.push(key)[k] == f[i].0);
    }
}

proof fn lemma_push_fresh(f: EntriesView, allowed: Seq<Seq<char>>, key: Seq<char>, v: JsonView)
    requires
        keys_distinct(f),
        keys_within(f, allowed),
        !allowed.contains(key),
    ensures
        keys_distinct(f.push((key, v))),
        keys_within(f.push((key, v)), allowed.push(key)),
{
    let g = f.push((key, v));
    lemma_within_grows(f, allowed, key);
    assert forall|i: int, j: int| 0 <= i < j < g.len() implies #[trigger] g[i].0 != #[trigger] g[j].0 by {
        if j == f.len() {
            assert(allowed.contains(f[i].0));
        } else {
            assert(g[i] == f[i] && g[j] == f[j]);
        }
    }
    assert forall|i: int| 0 <= i < g.len() implies allowed.push(key).contains(#[trigger] g[i].0) by {
        if i == f.len() {
            assert(allowed.push(key)[allowed.len() as int] == key);
        } else {
            assert(g[i] == f[i]);
        }
    }
}

proof fn lemma_step_fresh(
    r: Result<EntriesView, Seq<char>>,
    next: Result<EntriesView, Seq<char>>,
    allowed: Seq<Seq<char>>,
    key: Seq<char>,
    v: JsonView,
)
    requires
        fresh_so_far(r, allowed),
        !allowed.contains(key),
        r is Err ==> next is Err,
        r matches Ok(f) ==> (next == Ok::<EntriesView, Seq<char>>(f) || next == Ok::<
            EntriesView,
            Seq<char>,
        >(f.push((key, v))) || next is Err),
    ensures
        fresh_so_far(next, allowed.push(key)),
{
    if let Ok(f) = r {
        lemma_within_grows(f, allowed, key);
        lemma_push_fresh(f, allowed, key, v);
    }
}

proof fn lemma_list_fresh(r: Result<EntriesView, Seq<char>>, allowed: Seq<Seq<char>>, key: Seq<char>, value: Option<Seq<Seq<char>>>)
    requires
        fresh_so_far(r, allowed),
        !allowed.contains(key),
    ensures
        fresh_so_far(then_list(r, key, value), allowed.push(key)),
{
    let v = match value {
        Some(vs) => str_array_view(vs),
        None => JsonView::Null,
    };
    lemma_step_fresh(r, then_list(r, key, value), allowed, key, v);
}

proof fn lemma_string_fresh(r: Result<EntriesView, Seq<char>>, allowed: Seq<Seq<char>>, key: Seq<char>, value: Option<Seq<char>>)
    requires
        fresh_so_far(r, allowed),
        !allowed.contains(key),
    ensures
        fresh_so_far(then_string(r, key, value), allowed.push(key)),
{
    let v = match value {
        Some(s) => JsonView::Str(s),
        None => JsonView::Null,
    };
    lemma_step_fresh(r, then_string(r, key, value), allowed, key, v);
}

proof fn lemma_flag_fresh(r: Result<EntriesView, Seq<char>>, allowed: Seq<Seq<char>>, key: Seq<char>, flag: bool)
    requires
        fresh_so_far(r, allowed),
        !allowed.contains(key),
    ensures
        fresh_so_far(then_flag(r, key, flag), allowed.push(key)),
{
    lemma_step_fresh(r, then_flag(r, key, flag), allowed, key, JsonView::Bool(true));
}

proof fn lemma_enum_fresh(
    r: Result<EntriesView, Seq<char>>,
    allowed: Seq<Seq<char>>,
    key: Seq<char>,
    value: Option<Seq<Seq<char>>>,
    valid: Seq<Seq<char>>,
)
    requires
        fresh_so_far(r, allowed),
        !allowed.contains(key),
    ensures
        fresh_so_far(then_enum(r, key, value, valid), allowed.push(key)),
        value is None ==> then_enum(r, key, value, valid) == r,
{
    let v = match value {
        Some(vs) => match validate_all(key, vs, valid) {
            Ok(ns) => str_array_view(ns),
            Err(_) => JsonView::Null,
        },
        None => JsonView::Null,
    };
    lemma_step_fresh(r, then_enum(r, key, value, valid), allowed, key, v);
}

proof fn lemma_range_fresh(
    r: Result<EntriesView, Seq<char>>,
    allowed: Seq<Seq<char>>,
    field: Seq<char>,
    after: Option<Seq<char>>,
    before: Option<Seq<char>>,
    now: int,
)
    requires
        fresh_so_far(r, allowed),
        !allowed.contains(field),
    ensures
        fresh_so_far(then_range(r, field, after, before, now), allowed.push(field)),
{
    if let Ok(f) = r {
        lemma_within_grows(f, allowed, field);
        if let Ok(g) = then_range(r, field, after, before, now) {
            if g != f {
                let range = g.last().1;
                assert(g == f.push((field, range)));
                lemma_push_fresh(f, allowed, field, range);
            }
        }
    }
}

/// The member `key` of the entries `f` after pushing `e`.
proof fn lemma_get_push(f: EntriesView, e: (Seq<char>, JsonView), key: Seq<char>)
    ensures
        entries_get(f.push(e), key) == (if entries_get(f, key) is Some {
            entries_get(f, key)
        } else if e.0 == key {
            Some(e.1)
        } else {
            None
        }),
    decreases f.len(),
{
    if f.len() > 0 {
        assert(f.push(e).drop_first() =~= f.drop_first().push(e));
        assert(f.push(e)[0] == f[0]);
        lemma_get_push(f.drop_first(), e, key);
    } else {
        assert(f.push(e).drop_first() =~= Seq::<(Seq<char>, JsonView)>::empty());
        assert(f.push(e)[0] == e);
        assert(entries_get(f.push(e).drop_first(), key) is None);
    }
}

/// A key outside `allowed` is not a member of entries whose keys are all in it.
proof fn lemma_get_absent(f: EntriesView, allowed: Seq<Seq<char>>, key: Seq<char>)
    requires
        keys_within(f, allowed),
        !allowed.contains(key),
    ensures
        entries_get(f, key) is None,
    decreases f.len(),
{
    if f.len() > 0 {
        assert(allowed.contains(f[0].0));
        assert forall|i: int| 0 <= i < f.drop_first().len() implies allowed.contains(
            #[trigger] f.drop_first()[i].0,
        ) by {
            assert(f.drop_first()[i] == f[i + 1]);
        }
        lemma_get_absent(f.drop_first(), allowed, key);
    }
}

/// The date filter that a range of bounds `after` and `before` sets, if any.
pub open spec fn range_filter(after: Option<Seq<char>>, before: Option<Seq<char>>, now: int) -> Option<JsonView> {
    match date_range(after, before, now) {
        Ok(range) => if range.len() > 0 {
            Some(JsonView::Object(range, None))
        } else {
            None
        },
        Err(_) => None,
    }
}

/// How one range step changes the members of the filters.
proof fn lemma_range_get(
    r: Result<EntriesView, Seq<char>>,
    field: Seq<char>,
    after: Option<Seq<char>>,
    before: Option<Seq<char>>,
    now: int,
)
    requires
        r is Ok,
        then_range(r, field, after, before, now) is Ok,
    ensures
        forall|key: Seq<char>|
            #[trigger] entries_get(then_range(r, field, after, before, now)->Ok_0, key) == (if key
                == field && entries_get(r->Ok_0, key) is None {
                range_filter(after, before, now)
            } else {
                entries_get(r->Ok_0, key)
            }),
{
    let f = r->Ok_0;
    let range = date_range(after, before, now)->Ok_0;
    assert forall|key: Seq<char>|
        #[trigger] entries_get(then_range(r, field, after, before, now)->Ok_0, key) == (if key
            == field && entries_get(f, key) is None {
            range_filter(after, before, now)
        } else {
            entries_get(f, key)
        }) by {
        if range.len() > 0 {
            lemma_get_push(f, (field, JsonView::Object(range, None)), key);
        }
    }
}

/// What the filter chain keeps: distinct keys, and each date filter built
/// from its own two bounds.
#[verifier::rlimit(60)]
proof fn lemma_filter_chain(a: IssueFilterArgs, now: int)
    ensures
        filters_spec(a, now) matches Ok(f) ==> keys_distinct(f),
        threat_filters_spec(a, now) matches Ok(f) ==> keys_distinct(f),
        filters_spec(a, now) matches Ok(f) ==> {
            &&& entries_get(f, "createdAt"@) == range_filter(opt_str(a.since), opt_str(a.created_before), now)
            &&& entries_get(f, "resolvedAt"@) == range_filter(
                opt_str(a.resolved_since),
                opt_str(a.resolved_before),
                now,
            )
            &&& entries_get(f, "statusChangedAt"@) == range_filter(opt_str(a.status_changed_since), None, now)
            &&& entries_get(f, "dueAt"@) == range_filter(opt_str(a.due_since), opt_str(a.due_before), now)
            &&& entries_get(f, "threatLastGroupedAt"@) == range_filter(
                opt_str(a.threat_last_grouped_since),
                None,
                now,
            )
        },
{
    reveal_strlit("id");
    reveal_strlit("search");
    reveal_strlit("severity");
    reveal_strlit("status");
    reveal_strlit("type");
    reveal_strlit("project");
    reveal_strlit("resolutionReason");
    reveal_strlit("assignee");
    reveal_strlit("environment");
    reveal_strlit("projectBusinessImpact");
    reveal_strlit("stackLayer");
    reveal_strlit("cloudAccountOrCloudOrganizationId");
    reveal_strlit("hasNote");
    reveal_strlit("hasServiceTicket");
    reveal_strlit("noteContains");
    reveal_strlit("validatedAsExploitable");
    reveal_strlit("threatFileHash");
    reveal_strlit("threatRuntimeProgramName");
    reveal_strlit("createdAt");
    reveal_strlit("resolvedAt");
    reveal_strlit("statusChangedAt");
    reveal_strlit("dueAt");
    reveal_strlit("threatLastGroupedAt");
    assert("id"@.len() == 2 && "search"@.len() == 6 && "severity"@.len() == 8 && "status"@.len() == 6);
    assert("type"@.len() == 4 && "project"@.len() == 7 && "resolutionReason"@.len() == 16);
    assert("assignee"@.len() == 8 && "environment"@.len() == 11 && "projectBusinessImpact"@.len() == 21);
    assert("stackLayer"@.len() == 10 && "cloudAccountOrCloudOrganizationId"@.len() == 33);
    assert("hasNote"@.len() == 7 && "hasServiceTicket"@.len() == 16 && "noteContains"@.len() == 12);
    assert("validatedAsExploitable"@.len() == 22 && "threatFileHash"@.len() == 14);
    assert("threatRuntimeProgramName"@.len() == 24 && "createdAt"@.len() == 9 && "resolvedAt"@.len() == 10);
    assert("statusChangedAt"@.len() == 15 && "dueAt"@.len() == 5 && "threatLastGroupedAt"@.len() == 19);
    assert("search"@[1] == 'e' && "status"@[1] == 't');
    assert("severity"@[0] == 's' && "assignee"@[0] == 'a');
    assert("project"@[0] == 'p' && "hasNote"@[0] == 'h');
    assert("resolutionReason"@[0] == 'r' && "hasServiceTicket"@[0] == 'h');
    assert("stackLayer"@[0] == 's' && "resolvedAt"@[0] == 'r');

    let r0: Result<EntriesView, Seq<char>> = Ok(Seq::empty());
    let k0: Seq<Seq<char>> = Seq::empty();
    let r1 = then_list(r0, "id"@, opt_list(a.id));
    lemma_list_fresh(r0, k0, "id"@, opt_list(a.id));
    let k1 = k0.push("id"@);
    let r2 = then_string(r1, "search"@, opt_str(a.search));
    lemma_string_fresh(r1, k1, "search"@, opt_str(a.search));
    let k2 = k1.push("search"@);
    let r3 = then_enum(r2, "severity"@, opt_list(a.severity), severities());
    lemma_enum_fresh(r2, k2, "severity"@, opt_list(a.severity), severities());
    let k3 = k2.push("severity"@);
    let r4 = then_enum(r3, "status"@, opt_list(a.status), statuses());
    lemma_enum_fresh(r3, k3, "status"@, opt_list(a.status), statuses());
    let k4 = k3.push("status"@);
    let r5 = then_enum(r4, "type"@, opt_list(a.issue_type), issue_types());
    lemma_enum_fresh(r4, k4, "type"@, opt_list(a.issue_type), issue_types());
    let k5 = if a.issue_type is Some {
        k4.push("type"@)
    } else {
        k4
    };
    let r6 = then_list(r5, "project"@, opt_list(a.project));
    lemma_list_fresh(r5, k5, "project"@, opt_list(a.project));
    let k6 = k5.push("project"@);
    let r7 = then_enum(r6, "resolutionReason"@, opt_list(a.resolution_reason), resolution_reasons());
    lemma_enum_fresh(r6, k6, "resolutionReason"@, opt_list(a.resolution_reason), resolution_reasons());
    let k7 = k6.push("resolutionReason"@);
    let r8 = then_list(r7, "assignee"@, opt_list(a.assignee));
    lemma_list_fresh(r7, k7, "assignee"@, opt_list(a.assignee));
    let k8 = k7.push("assignee"@);
    let r9 = then_list(r8, "environment"@, opt_list(a.environment));
    lemma_list_fresh(r8, k8, "environment"@, opt_list(a.environment));
    let k9 = k8.push("environment"@);
    let r10 = then_enum(r9, "projectBusinessImpact"@, opt_list(a.project_business_impact), business_impacts());
    lemma_enum_fresh(r9, k9, "projectBusinessImpact"@, opt_list(a.project_business_impact), business_impacts());
    let k10 = k9.push("projectBusinessImpact"@);
    let r11 = then_enum(r10, "stackLayer"@, opt_list(a.stack_layer), stack_layers());
    lemma_enum_fresh(r10, k10, "stackLayer"@, opt_list(a.stack_layer), stack_layers());
    let k11 = k10.push("stackLayer"@);
    let r12 = then_list(r11, "cloudAccountOrCloudOrganizationId"@, opt_list(a.cloud_account));
    lemma_list_fresh(r11, k11, "cloudAccountOrCloudOrganizationId"@, opt_list(a.cloud_account));
    let k12 = k11.push("cloudAccountOrCloudOrganizationId"@);
    let r13 = then_flag(r12, "hasNote"@, a.has_note);
    lemma_flag_fresh(r12, k12, "hasNote"@, a.has_note);
    let k13 = k12.push("hasNote"@);
    let r14 = then_flag(r13, "hasServiceTicket"@, a.has_service_ticket);
    lemma_flag_fresh(r13, k13, "hasServiceTicket"@, a.has_service_ticket);
    let k14 = k13.push("hasServiceTicket"@);
    let r15 = then_string(r14, "noteContains"@, opt_str(a.note_contains));
    lemma_string_fresh(r14, k14, "noteContains"@, opt_str(a.note_contains));
    let k15 = k14.push("noteContains"@);
    let r16 = then_flag(r15, "validatedAsExploitable"@, a.validated_as_exploitable);
    lemma_flag_fresh(r15, k15, "validatedAsExploitable"@, a.validated_as_exploitable);
    let k16 = k15.push("validatedAsExploitable"@);
    let r17 = then_string(r16, "threatFileHash"@, opt_str(a.threat_file_hash));
    lemma_string_fresh(r16, k16, "threatFileHash"@, opt_str(a.threat_file_hash));
    let k17 = k16.push("threatFileHash"@);
    let r18 = then_string(r17, "threatRuntimeProgramName"@, opt_str(a.threat_runtime_program_name));
    lemma_string_fresh(r17, k17, "threatRuntimeProgramName"@, opt_str(a.threat_runtime_program_name));
    let k18 = k17.push("threatRuntimeProgramName"@);
    assert(r18 == plain_filters_spec(a));

    let q0 = r18;
    let q1 = then_range(q0, "createdAt"@, opt_str(a.since), opt_str(a.created_before), now);
    lemma_range_fresh(q0, k18, "createdAt"@, opt_str(a.since), opt_str(a.created_before), now);
    let k19 = k18.push("createdAt"@);
    let q2 = then_range(q1, "resolvedAt"@, opt_str(a.resolved_since), opt_str(a.resolved_before), now);
    lemma_range_fresh(q1, k19, "resolvedAt"@, opt_str(a.resolved_since), opt_str(a.resolved_before), now);
    let k20 = k19.push("resolvedAt"@);
    let q3 = then_range(q2, "statusChangedAt"@, opt_str(a.status_changed_since), None, now);
    lemma_range_fresh(q2, k20, "statusChangedAt"@, opt_str(a.status_changed_since), None, now);
    let k21 = k20.push("statusChangedAt"@);
    let q4 = then_range(q3, "dueAt"@, opt_str(a.due_since), opt_str(a.due_before), now);
    lemma_range_fresh(q3, k21, "dueAt"@, opt_str(a.due_since), opt_str(a.due_before), now);
    let k22 = k21.push("dueAt"@);
    let q5 = then_range(q4, "threatLastGroupedAt"@, opt_str(a.threat_last_grouped_since), None, now);
    lemma_range_fresh(q4, k22, "threatLastGroupedAt"@, opt_str(a.threat_last_grouped_since), None, now);
    let k23 = k22.push("threatLastGroupedAt"@);
    assert(q5 == filters_spec(a, now));

    if let Ok(f5) = q5 {
        let f0 = q0->Ok_0;
        lemma_get_absent(f0, k18, "createdAt"@);
        lemma_get_absent(f0, k18, "resolvedAt"@);
        lemma_get_absent(f0, k18, "statusChangedAt"@);
        lemma_get_absent(f0, k18, "dueAt"@);
        lemma_get_absent(f0, k18, "threatLastGroupedAt"@);
        lemma_range_get(q0, "createdAt"@, opt_str(a.since), opt_str(a.created_before), now);
        lemma_range_get(q1, "resolvedAt"@, opt_str(a.resolved_since), opt_str(a.resolved_before), now);
        lemma_range_get(q2, "statusChangedAt"@, opt_str(a.status_changed_since), None, now);
        lemma_range_get(q3, "dueAt"@, opt_str(a.due_since), opt_str(a.due_before), now);
        lemma_range_get(q4, "threatLastGroupedAt"@, opt_str(a.threat_last_grouped_since), None, now);
        let f1 = q1->Ok_0;
        let f2 = q2->Ok_0;
        let f3 = q3->Ok_0;
        let f4 = q4->Ok_0;
        assert(entries_get(f1, "createdAt"@) == range_filter(opt_str(a.since), opt_str(a.created_before), now));
        assert(entries_get(f1, "resolvedAt"@) is None);
        assert(entries_get(f1, "statusChangedAt"@) is None);
        assert(entries_get(f1, "dueAt"@) is None);
        assert(entries_get(f1, "threatLastGroupedAt"@) is None);
        assert(entries_get(f2, "createdAt"@) == entries_get(f1, "createdAt"@));
        assert(entries_get(f2, "statusChangedAt"@) is None);
        assert(entries_get(f2, "dueAt"@) is None);
        assert(entries_get(f2, "threatLastGroupedAt"@) is None);
        assert(entries_get(f3, "createdAt"@) == entries_get(f1, "createdAt"@));
        assert(entries_get(f3, "resolvedAt"@) == entries_get(f2, "resolvedAt"@));
        assert(entries_get(f3, "dueAt"@) is None);
        assert(entries_get(f3, "threatLastGroupedAt"@) is None);
        assert(entries_get(f4, "createdAt"@) == entries_get(f1, "createdAt"@));
        assert(entries_get(f4, "resolvedAt"@) == entries_get(f2, "resolvedAt"@));
        assert(entries_get(f4, "statusChangedAt"@) == entries_get(f3, "statusChangedAt"@));
        assert(entries_get(f4, "threatLastGroupedAt"@) is None);
        assert(entries_get(f5, "createdAt"@) == entries_get(f1, "createdAt"@));
        assert(entries_get(f5, "resolvedAt"@) == entries_get(f2, "resolvedAt"@));
        assert(entries_get(f5, "statusChangedAt"@) == entries_get(f3, "statusChangedAt"@));
        assert(entries_get(f5, "dueAt"@) == entries_get(f4, "dueAt"@));
    }

    if a.issue_type is None {
        if let Ok(f) = q5 {
            assert(!k23.contains("type"@));
            lemma_push_fresh(f, k23, "type"@, str_array_view(seq!["THREAT_DETECTION"@]));
        }
    }
}

/// Each filter is set once: the keys of the filters of a listing are
/// distinct, for an issue listing and for a threat listing alike, as they
/// are in a JSON object.
pub proof fn lemma_filter_keys_distinct(a: IssueFilterArgs, now: int)
    ensures
        filters_spec(a, now) matches Ok(f) ==> keys_distinct(f),
        threat_filters_spec(a, now) matches Ok(f) ==> keys_distinct(f),
{
    lemma_filter_chain(a, now);
}

/// The bound `name` of a date range: the time `d` before `now` when the
/// bound `d` is given, absent otherwise.
pub open spec fn bound_member(range: EntriesView, name: Seq<char>, bound: Option<Seq<char>>, now: int) -> bool {
    entries_get(range, name) == (match bound {
        Some(d) => Some(JsonView::Str(relative_spec(now, d)->Ok_0)),
        None => None,
    })
}

/// Each date filter (`createdAt`, `resolvedAt`, `statusChangedAt`, `dueAt`,
/// `threatLastGroupedAt`) is the range `{after, before}` built from its own
/// two bounds, each present when its argument is given; the filter itself
/// is present when either is.
pub proof fn lemma_date_filters(a: IssueFilterArgs, now: int)
    ensures
        filters_spec(a, now) matches Ok(f) ==> {
            &&& entries_get(f, "createdAt"@) == range_filter(opt_str(a.since), opt_str(a.created_before), now)
            &&& entries_get(f, "resolvedAt"@) == range_filter(
                opt_str(a.resolved_since),
                opt_str(a.resolved_before),
                now,
            )
            &&& entries_get(f, "statusChangedAt"@) == range_filter(opt_str(a.status_changed_since), None, now)
            &&& entries_get(f, "dueAt"@) == range_filter(opt_str(a.due_since), opt_str(a.due_before), now)
            &&& entries_get(f, "threatLastGroupedAt"@) == range_filter(
                opt_str(a.threat_last_grouped_since),
                None,
                now,
            )
        },
        forall|after: Option<Seq<char>>, before: Option<Seq<char>>|
            #[trigger] date_range(after, before, now) is Ok ==> bound_member(
                date_range(after, before, now)->Ok_0,
                "after"@,
                after,
                now,
            ) && bound_member(date_range(after, before, now)->Ok_0, "before"@, before, now),
{
    lemma_filter_chain(a, now);
    reveal_strlit("after");
    reveal_strlit("before");
    assert("after"@.len() == 5 && "before"@.len() == 6);
    assert forall|after: Option<Seq<char>>, before: Option<Seq<char>>|
        #[trigger] date_range(after, before, now) is Ok implies bound_member(
            date_range(after, before, now)->Ok_0,
            "after"@,
            after,
            now,
        ) && bound_member(date_range(after, before, now)->Ok_0, "before"@, before, now) by {
        let range = date_range(after, before, now)->Ok_0;
        let first: EntriesView = match after {
            Some(d) => seq![("after"@, JsonView::Str(relative_spec(now, d)->Ok_0))],
            None => Seq::empty(),
        };
        assert(entries_get(first, "after"@) == (match after {
            Some(d) => Some(JsonView::Str(relative_spec(now, d)->Ok_0)),
            None => None,
        })) by {
            if after is Some {
                assert(first.drop_first() =~= Seq::<(Seq<char>, JsonView)>::empty());
            }
        }
        assert(entries_get(first, "before"@) is None) by {
            if after is Some {
                assert(first.drop_first() =~= Seq::<(Seq<char>, JsonView)>::empty());
                assert(entries_get(first.drop_first(), "before"@) is None);
                assert("after"@ != "before"@);
            }
        }
        if let Some(d) = before {
            lemma_get_push(first, ("before"@, JsonView::Str(relative_spec(now, d)->Ok_0)), "after"@);
            lemma_get_push(first, ("before"@, JsonView::Str(relative_spec(now, d)->Ok_0)), "before"@);
        }
    }
}

/// The listing after the responses `rs` are recorded in turn, or the error
/// that ended it.
pub open spec fn pager_after(p: PagerView, rs: Seq<JsonView>) -> Result<PagerView, Seq<char>>
    decreases rs.len(),
{
    if rs.len() == 0 {
        Ok(p)
    } else {
        match pager_after(p, rs.drop_last()) {
            Err(e) => Err(e),
            Ok(q) => record_page_spec(q, rs.last()),
        }
    }
}

/// The `pageInfo` of a page response.
pub open spec fn page_info_of(r: JsonView) -> Option<JsonView> {
    match data_member(r, "issues"@) {
        Some(conn) => json_get(conn, "pageInfo"@),
        None => None,
    }
}

/// The issues of a page response.
pub open spec fn page_nodes(r: JsonView) -> Seq<JsonView> {
    match data_member(r, "issues"@) {
        Some(conn) => match json_as_array(json_get(conn, "nodes"@)) {
            Some(n) => n,
            None => Seq::empty(),
        },
        None => Seq::empty(),
    }
}

/// Whether a page response says that another page follows.
pub open spec fn has_next_page(r: JsonView) -> bool {
    match page_info_of(r) {
        Some(info) => json_as_bool(json_get(info, "hasNextPage"@)) == Some(true),
        None => false,
    }
}

/// The `endCursor` of a page response.
pub open spec fn end_cursor(r: JsonView) -> Option<Seq<char>> {
    match page_info_of(r) {
        Some(info) => json_as_str(json_get(info, "endCursor"@)),
        None => None,
    }
}

/// The issues of the page responses `rs`, in order.
pub open spec fn pages_nodes(rs: Seq<JsonView>) -> Seq<JsonView>
    decreases rs.len(),
{
    if rs.len() == 0 {
        Seq::empty()
    } else {
        pages_nodes(rs.drop_last()) + page_nodes(rs.last())
    }
}

/// The sequence of page requests: after the pages `rs`, the listing holds
/// every issue of them in order; while it goes on, the next request starts
/// at the last page's `endCursor` (none before the first page) and asks for
/// `500` records with `--all`, else for what is still missing of the number,
/// at most 500; it stops once a page says no other page follows, and with
/// `--all` only then.
pub proof fn lemma_paging_sequence(p: PagerView, rs: Seq<JsonView>)
    requires
        pager_after(p, rs) is Ok,
    ensures
        ({
            let q = pager_after(p, rs)->Ok_0;
            &&& q.nodes == p.nodes + pages_nodes(rs)
            &&& q.filters == p.filters && q.number == p.number && q.all == p.all && q.details
                == p.details
            &&& rs.len() == 0 ==> q == p
            &&& rs.len() > 0 && !has_next_page(rs.last()) ==> q.finished
            &&& rs.len() > 0 && !q.finished ==> q.after == end_cursor(rs.last()) && has_next_page(
                rs.last(),
            )
            &&& q.all && !p.finished && (forall|i: int| 0 <= i < rs.len() ==> has_next_page(
                #[trigger] rs[i],
            )) ==> !q.finished
            &&& page_request_size(q) == (if q.all {
                500
            } else if q.number - q.nodes.len() < 500 {
                if q.number >= q.nodes.len() {
                    q.number - q.nodes.len()
                } else {
                    0
                }
            } else {
                500
            })
        }),
    decreases rs.len(),
{
    if rs.len() > 0 {
        let prev = rs.drop_last();
        lemma_paging_sequence(p, prev);
        let q0 = pager_after(p, prev)->Ok_0;
        let r = rs.last();
        assert(pages_nodes(rs) == pages_nodes(prev) + page_nodes(r));
        assert(p.nodes + pages_nodes(rs) =~= (p.nodes + pages_nodes(prev)) + page_nodes(r));
        if rs.len() == 1 {
            assert(prev =~= Seq::<JsonView>::empty());
        }
        if forall|i: int| 0 <= i < rs.len() ==> has_next_page(#[trigger] rs[i]) {
            assert forall|i: int| 0 <= i < prev.len() implies has_next_page(#[trigger] prev[i]) by {
                assert(prev[i] == rs[i]);
            }
            assert(has_next_page(rs[rs.len() - 1]));
        }
    }
}

/// Whether every value of an enum list filter, if given, is valid in any
/// case.
pub open spec fn enum_values_ok(value: Option<Seq<Seq<char>>>, valid: Seq<Seq<char>>) -> bool {
    match value {
        None => true,
        Some(vs) => forall|i: int| 0 <= i < vs.len() ==> valid.contains(upper(#[trigger] vs[i])),
    }
}

/// Whether a relative bound, if given, is a valid duration that can be
/// taken back from `now` without leaving the range of an `i64`.
pub open spec fn bound_ok(d: Option<Seq<char>>, now: int) -> bool {
    match d {
        None => true,
        Some(d) => match duration_spec(d) {
            Ok(secs) => now - secs >= i64::MIN,
            Err(_) => false,
        },
    }
}

/// Whether every enum value and every relative bound of `a` is valid.
pub open spec fn filter_args_ok(a: IssueFilterArgs, now: int) -> bool {
    &&& enum_values_ok(opt_list(a.severity), severities())
    &&& enum_values_ok(opt_list(a.status), statuses())
    &&& enum_values_ok(opt_list(a.issue_type), issue_types())
    &&& enum_values_ok(opt_list(a.resolution_reason), resolution_reasons())
    &&& enum_values_ok(opt_list(a.project_business_impact), business_impacts())
    &&& enum_values_ok(opt_list(a.stack_layer), stack_layers())
    &&& bound_ok(opt_str(a.since), now)
    &&& bound_ok(opt_str(a.created_before), now)
    &&& bound_ok(opt_str(a.resolved_since), now)
    &&& bound_ok(opt_str(a.resolved_before), now)
    &&& bound_ok(opt_str(a.status_changed_since), now)
    &&& bound_ok(opt_str(a.due_since), now)
    &&& bound_ok(opt_str(a.due_before), now)
    &&& bound_ok(opt_str(a.threat_last_grouped_since), now)
}

proof fn lemma_validate_all_ok(key: Seq<char>, vs: Seq<Seq<char>>, valid: Seq<Seq<char>>)
    ensures
        validate_all(key, vs, valid) is Ok <==> forall|i: int|
            0 <= i < vs.len() ==> valid.contains(upper(#[trigger] vs[i])),
    decreases vs.len(),
{
    if vs.len() > 0 {
        let prev = vs.drop_last();
        lemma_validate_all_ok(key, prev, valid);
        if forall|i: int| 0 <= i < vs.len() ==> valid.contains(upper(#[trigger] vs[i])) {
            assert forall|i: int| 0 <= i < prev.len() implies valid.contains(upper(#[trigger] prev[i])) by {
                assert(prev[i] == vs[i]);
            }
            assert(valid.contains(upper(vs[vs.len() - 1])));
        } else {
            let i = choose|i: int| 0 <= i < vs.len() && !valid.contains(upper(#[trigger] vs[i]));
            if i < prev.len() {
                assert(prev[i] == vs[i]);
            }
        }
    }
}

proof fn lemma_enum_step_ok(r: Result<EntriesView, Seq<char>>, key: Seq<char>, value: Option<Seq<Seq<char>>>, valid: Seq<Seq<char>>)
    ensures
        then_enum(r, key, value, valid) is Ok <==> (r is Ok && enum_values_ok(value, valid)),
{
    if let Some(vs) = value {
        lemma_validate_all_ok(key, vs, valid);
    }
}

proof fn lemma_range_step_ok(r: Result<EntriesView, Seq<char>>, field: Seq<char>, after: Option<Seq<char>>, before: Option<Seq<char>>, now: int)
    ensures
        then_range(r, field, after, before, now) is Ok <==> (r is Ok && bound_ok(after, now) && bound_ok(
            before,
            now,
        )),
{
}

/// Building the filters fails exactly on bad input: when some enum value is
/// not a valid value in any case, or some relative bound is not a valid
/// duration or reaches back before the earliest `i64` timestamp. A threat
/// listing fails besides exactly when a type is given.
pub proof fn lemma_filters_fail_exactly_on_bad_input(a: IssueFilterArgs, now: int)
    ensures
        filters_spec(a, now) is Err <==> !filter_args_ok(a, now),
        threat_filters_spec(a, now) is Err <==> (a.issue_type is Some || !filter_args_ok(a, now)),
{
    let r0: Result<EntriesView, Seq<char>> = Ok(Seq::empty());
    let r1 = then_list(r0, "id"@, opt_list(a.id));
    let r2 = then_string(r1, "search"@, opt_str(a.search));
    let r3 = then_enum(r2, "severity"@, opt_list(a.severity), severities());
    lemma_enum_step_ok(r2, "severity"@, opt_list(a.severity), severities());
    let r4 = then_enum(r3, "status"@, opt_list(a.status), statuses());
    lemma_enum_step_ok(r3, "status"@, opt_list(a.status), statuses());
    let r5 = then_enum(r4, "type"@, opt_list(a.issue_type), issue_types());
    lemma_enum_step_ok(r4, "type"@, opt_list(a.issue_type), issue_types());
    let r6 = then_list(r5, "project"@, opt_list(a.project));
    let r7 = then_enum(r6, "resolutionReason"@, opt_list(a.resolution_reason), resolution_reasons());
    lemma_enum_step_ok(r6, "resolutionReason"@, opt_list(a.resolution_reason), resolution_reasons());
    let r8 = then_list(r7, "assignee"@, opt_list(a.assignee));
    let r9 = then_list(r8, "environment"@, opt_list(a.environment));
    let r10 = then_enum(r9, "projectBusinessImpact"@, opt_list(a.project_business_impact), business_impacts());
    lemma_enum_step_ok(r9, "projectBusinessImpact"@, opt_list(a.project_business_impact), business_impacts());
    let r11 = then_enum(r10, "stackLayer"@, opt_list(a.stack_layer), stack_layers());
    lemma_enum_step_ok(r10, "stackLayer"@, opt_list(a.stack_layer), stack_layers());
    let r12 = then_list(r11, "cloudAccountOrCloudOrganizationId"@, opt_list(a.cloud_account));
    let r13 = then_flag(r12, "hasNote"@, a.has_note);
    let r14 = then_flag(r13, "hasServiceTicket"@, a.has_service_ticket);
    let r15 = then_string(r14, "noteContains"@, opt_str(a.note_contains));
    let r16 = then_flag(r15, "validatedAsExploitable"@, a.validated_as_exploitable);
    let r17 = then_string(r16, "threatFileHash"@, opt_str(a.threat_file_hash));
    let r18 = then_string(r17, "threatRuntimeProgramName"@, opt_str(a.threat_runtime_program_name));
    assert(r18 == plain_filters_spec(a));
    let q1 = then_range(r18, "createdAt"@, opt_str(a.since), opt_str(a.created_before), now);
    lemma_range_step_ok(r18, "createdAt"@, opt_str(a.since), opt_str(a.created_before), now);
    let q2 = then_range(q1, "resolvedAt"@, opt_str(a.resolved_since), opt_str(a.resolved_before), now);
    lemma_range_step_ok(q1, "resolvedAt"@, opt_str(a.resolved_since), opt_str(a.resolved_before), now);
    let q3 = then_range(q2, "statusChangedAt"@, opt_str(a.status_changed_since), None, now);
    lemma_range_step_ok(q2, "statusChangedAt"@, opt_str(a.status_changed_since), None, now);
    let q4 = then_range(q3, "dueAt"@, opt_str(a.due_since), opt_str(a.due_before), now);
    lemma_range_step_ok(q3, "dueAt"@, opt_str(a.due_since), opt_str(a.due_before), now);
    let q5 = then_range(q4, "threatLastGroupedAt"@, opt_str(a.threat_last_grouped_since), None, now);
    lemma_range_step_ok(q4, "threatLastGroupedAt"@, opt_str(a.threat_last_grouped_since), None, now);
    assert(q5 == filters_spec(a, now));
}

/// Whether `g` starts with every entry of `f`, in order.
spec fn extends(f: EntriesView, g: EntriesView) -> bool {
    f.len() <= g.len() && forall|i: int| 0 <= i < f.len() ==> #[trigger] g[i] == f[i]
}

proof fn lemma_extends_push(f: EntriesView, e: (Seq<char>, JsonView))
    ensures
        extends(f, f.push(e)),
{
}

proof fn lemma_list_step(r: Result<EntriesView, Seq<char>>, key: Seq<char>, value: Option<Seq<Seq<char>>>)
    requires
        then_list(r, key, value) is Ok,
    ensures
        r is Ok,
        extends(r->Ok_0, then_list(r, key, value)->Ok_0),
        value is Some && value->0.len() > 0 ==> then_list(r, key, value)->Ok_0 == r->Ok_0.push(
            (key, str_array_view(value->0)),
        ),
{
    if value is Some && value->0.len() > 0 {
        lemma_extends_push(r->Ok_0, (key, str_array_view(value->0)));
    }
}

proof fn lemma_string_step(r: Result<EntriesView, Seq<char>>, key: Seq<char>, value: Option<Seq<char>>)
    requires
        then_string(r, key, value) is Ok,
    ensures
        r is Ok,
        extends(r->Ok_0, then_string(r, key, value)->Ok_0),
        value is Some ==> then_string(r, key, value)->Ok_0 == r->Ok_0.push((key, JsonView::Str(value->0))),
{
    if value is Some {
        lemma_extends_push(r->Ok_0, (key, JsonView::Str(value->0)));
    }
}

proof fn lemma_flag_step(r: Result<EntriesView, Seq<char>>, key: Seq<char>, flag: bool)
    requires
        then_flag(r, key, flag) is Ok,
    ensures
        r is Ok,
        extends(r->Ok_0, then_flag(r, key, flag)->Ok_0),
        flag ==> then_flag(r, key, flag)->Ok_0 == r->Ok_0.push((key, JsonView::Bool(true))),
{
    if flag {
        lemma_extends_push(r->Ok_0, (key, JsonView::Bool(true)));
    }
}

proof fn lemma_enum_step(r: Result<EntriesView, Seq<char>>, key: Seq<char>, value: Option<Seq<Seq<char>>>, valid: Seq<Seq<char>>)
    requires
        then_enum(r, key, value, valid) is Ok,
    ensures
        r is Ok,
        extends(r->Ok_0, then_enum(r, key, value, valid)->Ok_0),
        value is Some && value->0.len() > 0 ==> then_enum(r, key, value, valid)->Ok_0 == r->Ok_0.push(
            (key, str_array_view(value->0.map_values(|v: Seq<char>| upper(v)))),
        ),
{
    if let Some(vs) = value {
        lemma_validate_all_upper(key, vs, valid);
        let ns = validate_all(key, vs, valid)->Ok_0;
        if ns.len() > 0 {
            lemma_extends_push(r->Ok_0, (key, str_array_view(ns)));
        }
    }
}

proof fn lemma_range_step(r: Result<EntriesView, Seq<char>>, field: Seq<char>, after: Option<Seq<char>>, before: Option<Seq<char>>, now: int)
    requires
        then_range(r, field, after, before, now) is Ok,
    ensures
        r is Ok,
        extends(r->Ok_0, then_range(r, field, after, before, now)->Ok_0),
{
    let range = date_range(after, before, now)->Ok_0;
    if range.len() > 0 {
        lemma_extends_push(r->Ok_0, (field, JsonView::Object(range, None)));
    }
}

proof fn lemma_extends_refl(f: EntriesView)
    ensures
        extends(f, f),
{
}

proof fn lemma_extends_trans(f: EntriesView, g: EntriesView, h: EntriesView)
    requires
        extends(f, g),
        extends(g, h),
    ensures
        extends(f, h),
{
    assert forall|i: int| 0 <= i < f.len() implies #[trigger] h[i] == f[i] by {
        assert(h[i] == g[i]);
    }
}

/// The values that pass validation are the given ones upper-cased, in order.
proof fn lemma_validate_all_upper(key: Seq<char>, vs: Seq<Seq<char>>, valid: Seq<Seq<char>>)
    ensures
        validate_all(key, vs, valid) matches Ok(ns) ==> ns == vs.map_values(|v: Seq<char>| upper(v)),
    decreases vs.len(),
{
    if vs.len() > 0 {
        lemma_validate_all_upper(key, vs.drop_last(), valid);
        if let Ok(ns) = validate_all(key, vs, valid) {
            assert(vs.map_values(|v: Seq<char>| upper(v)) =~= vs.drop_last().map_values(
                |v: Seq<char>| upper(v),
            ).push(upper(vs.last())));
        }
    } else {
        assert(vs.map_values(|v: Seq<char>| upper(v)) =~= Seq::<Seq<char>>::empty());
    }
}

spec fn plain_head(a: IssueFilterArgs) -> Result<EntriesView, Seq<char>> {
    let r0: Result<EntriesView, Seq<char>> = Ok(Seq::empty());
    let q0 = then_list(r0, "id"@, opt_list(a.id));
    let q1 = then_string(q0, "search"@, opt_str(a.search));
    let q2 = then_enum(q1, "severity"@, opt_list(a.severity), severities());
    let q3 = then_enum(q2, "status"@, opt_list(a.status), statuses());
    let q4 = then_enum(q3, "type"@, opt_list(a.issue_type), issue_types());
    let q5 = then_list(q4, "project"@, opt_list(a.project));
    let q6 = then_enum(q5, "resolutionReason"@, opt_list(a.resolution_reason), resolution_reasons());
    let q7 = then_list(q6, "assignee"@, opt_list(a.assignee));
    let q8 = then_list(q7, "environment"@, opt_list(a.environment));
    q8
}

spec fn plain_tail(r: Result<EntriesView, Seq<char>>, a: IssueFilterArgs) -> Result<EntriesView, Seq<char>> {
    let q0 = then_enum(r, "projectBusinessImpact"@, opt_list(a.project_business_impact), business_impacts());
    let q1 = then_enum(q0, "stackLayer"@, opt_list(a.stack_layer), stack_layers());
    let q2 = then_list(q1, "cloudAccountOrCloudOrganizationId"@, opt_list(a.cloud_account));
    let q3 = then_flag(q2, "hasNote"@, a.has_note);
    let q4 = then_flag(q3, "hasServiceTicket"@, a.has_service_ticket);
    let q5 = then_string(q4, "noteContains"@, opt_str(a.note_contains));
    let q6 = then_flag(q5, "validatedAsExploitable"@, a.validated_as_exploitable);
    let q7 = then_string(q6, "threatFileHash"@, opt_str(a.threat_file_hash));
    let q8 = then_string(q7, "threatRuntimeProgramName"@, opt_str(a.threat_runtime_program_name));
    q8
}

proof fn lemma_plain_head_members(a: IssueFilterArgs)
    ensures
        plain_head(a) matches Ok(g) ==> {
            &&& (a.id is Some && a.id->0.len() > 0) ==> g.contains(("id"@, str_array_view(strings_view(a.id->0@))))
            &&& (a.search is Some) ==> g.contains(("search"@, JsonView::Str(a.search->0@)))
            &&& (a.severity is Some && a.severity->0.len() > 0) ==> g.contains(("severity"@, str_array_view(strings_view(a.severity->0@).map_values(|v: Seq<char>| upper(v)))))
            &&& (a.status is Some && a.status->0.len() > 0) ==> g.contains(("status"@, str_array_view(strings_view(a.status->0@).map_values(|v: Seq<char>| upper(v)))))
            &&& (a.issue_type is Some && a.issue_type->0.len() > 0) ==> g.contains(("type"@, str_array_view(strings_view(a.issue_type->0@).map_values(|v: Seq<char>| upper(v)))))
            &&& (a.project is Some && a.project->0.len() > 0) ==> g.contains(("project"@, str_array_view(strings_view(a.project->0@))))
            &&& (a.resolution_reason is Some && a.resolution_reason->0.len() > 0) ==> g.contains(("resolutionReason"@, str_array_view(strings_view(a.resolution_reason->0@).map_values(|v: Seq<char>| upper(v)))))
            &&& (a.assignee is Some && a.assignee->0.len() > 0) ==> g.contains(("assignee"@, str_array_view(strings_view(a.assignee->0@))))
            &&& (a.environment is Some && a.environment->0.len() > 0) ==> g.contains(("environment"@, str_array_view(strings_view(a.environment->0@))))
        },
{
    let r0: Result<EntriesView, Seq<char>> = Ok(Seq::empty());
    let q0 = then_list(r0, "id"@, opt_list(a.id));
    let q1 = then_string(q0, "search"@, opt_str(a.search));
    let q2 = then_enum(q1, "severity"@, opt_list(a.severity), severities());
    let q3 = then_enum(q2, "status"@, opt_list(a.status), statuses());
    let q4 = then_enum(q3, "type"@, opt_list(a.issue_type), issue_types());
    let q5 = then_list(q4, "project"@, opt_list(a.project));
    let q6 = then_enum(q5, "resolutionReason"@, opt_list(a.resolution_reason), resolution_reasons());
    let q7 = then_list(q6, "assignee"@, opt_list(a.assignee));
    let q8 = then_list(q7, "environment"@, opt_list(a.environment));
    if q8 is Ok {
        let g = q8->Ok_0;
        lemma_list_step(q7, "environment"@, opt_list(a.environment));
        lemma_list_step(q6, "assignee"@, opt_list(a.assignee));
        lemma_enum_step(q5, "resolutionReason"@, opt_list(a.resolution_reason), resolution_reasons());
        lemma_list_step(q4, "project"@, opt_list(a.project));
        lemma_enum_step(q3, "type"@, opt_list(a.issue_type), issue_types());
        lemma_enum_step(q2, "status"@, opt_list(a.status), statuses());
        lemma_enum_step(q1, "severity"@, opt_list(a.severity), severities());
        lemma_string_step(q0, "search"@, opt_str(a.search));
        lemma_list_step(r0, "id"@, opt_list(a.id));
        lemma_extends_refl(g);
        lemma_extends_trans(q7->Ok_0, q8->Ok_0, g);
        lemma_extends_trans(q6->Ok_0, q7->Ok_0, g);
        lemma_extends_trans(q5->Ok_0, q6->Ok_0, g);
        lemma_extends_trans(q4->Ok_0, q5->Ok_0, g);
        lemma_extends_trans(q3->Ok_0, q4->Ok_0, g);
        lemma_extends_trans(q2->Ok_0, q3->Ok_0, g);
        lemma_extends_trans(q1->Ok_0, q2->Ok_0, g);
        lemma_extends_trans(q0->Ok_0, q1->Ok_0, g);
        if a.id is Some && a.id->0.len() > 0 {
            let i = r0->Ok_0.len() as int;
            assert(q0->Ok_0[i] == ("id"@, str_array_view(strings_view(a.id->0@))));
            assert(g[i] == q0->Ok_0[i]);
        }
        if a.search is Some {
            let i = q0->Ok_0.len() as int;
            assert(q1->Ok_0[i] == ("search"@, JsonView::Str(a.search->0@)));
            assert(g[i] == q1->Ok_0[i]);
        }
        if a.severity is Some && a.severity->0.len() > 0 {
            let i = q1->Ok_0.len() as int;
            assert(q2->Ok_0[i] == ("severity"@, str_array_view(strings_view(a.severity->0@).map_values(|v: Seq<char>| upper(v)))));
            assert(g[i] == q2->Ok_0[i]);
        }
        if a.status is Some && a.status->0.len() > 0 {
            let i = q2->Ok_0.len() as int;
            assert(q3->Ok_0[i] == ("status"@, str_array_view(strings_view(a.status->0@).map_values(|v: Seq<char>| upper(v)))));
            assert(g[i] == q3->Ok_0[i]);
        }
        if a.issue_type is Some && a.issue_type->0.len() > 0 {
            let i = q3->Ok_0.len() as int;
            assert(q4->Ok_0[i] == ("type"@, str_array_view(strings_view(a.issue_type->0@).map_values(|v: Seq<char>| upper(v)))));
            assert(g[i] == q4->Ok_0[i]);
        }
        if a.project is Some && a.project->0.len() > 0 {
            let i = q4->Ok_0.len() as int;
            assert(q5->Ok_0[i] == ("project"@, str_array_view(strings_view(a.project->0@))));
            assert(g[i] == q5->Ok_0[i]);
        }
        if a.resolution_reason is Some && a.resolution_reason->0.len() > 0 {
            let i = q5->Ok_0.len() as int;
            assert(q6->Ok_0[i] == ("resolutionReason"@, str_array_view(strings_view(a.resolution_reason->0@).map_values(|v: Seq<char>| upper(v)))));
            assert(g[i] == q6->Ok_0[i]);
        }
        if a.assignee is Some && a.assignee->0.len() > 0 {
            let i = q6->Ok_0.len() as int;
            assert(q7->Ok_0[i] == ("assignee"@, str_array_view(strings_view(a.assignee->0@))));
            assert(g[i] == q7->Ok_0[i]);
        }
        if a.environment is Some && a.environment->0.len() > 0 {
            let i = q7->Ok_0.len() as int;
            assert(q8->Ok_0[i] == ("environment"@, str_array_view(strings_view(a.environment->0@))));
            assert(g[i] == q8->Ok_0[i]);
        }
    }
}

proof fn lemma_plain_tail_members(r: Result<EntriesView, Seq<char>>, a: IssueFilterArgs)
    ensures
        plain_tail(r, a) matches Ok(g) ==> {
            &&& r is Ok && extends(r->Ok_0, g)
            &&& (a.project_business_impact is Some && a.project_business_impact->0.len() > 0) ==> g.contains(("projectBusinessImpact"@, str_array_view(strings_view(a.project_business_impact->0@).map_values(|v: Seq<char>| upper(v)))))
            &&& (a.stack_layer is Some && a.stack_layer->0.len() > 0) ==> g.contains(("stackLayer"@, str_array_view(strings_view(a.stack_layer->0@).map_values(|v: Seq<char>| upper(v)))))
            &&& (a.cloud_account is Some && a.cloud_account->0.len() > 0) ==> g.contains(("cloudAccountOrCloudOrganizationId"@, str_array_view(strings_view(a.cloud_account->0@))))
            &&& (a.has_note) ==> g.contains(("hasNote"@, JsonView::Bool(true)))
            &&& (a.has_service_ticket) ==> g.contains(("hasServiceTicket"@, JsonView::Bool(true)))
            &&& (a.note_contains is Some) ==> g.contains(("noteContains"@, JsonView::Str(a.note_contains->0@)))
            &&& (a.validated_as_exploitable) ==> g.contains(("validatedAsExploitable"@, JsonView::Bool(true)))
            &&& (a.threat_file_hash is Some) ==> g.contains(("threatFileHash"@, JsonView::Str(a.threat_file_hash->0@)))
            &&& (a.threat_runtime_program_name is Some) ==> g.contains(("threatRuntimeProgramName"@, JsonView::Str(a.threat_runtime_program_name->0@)))
        },
{
    let q0 = then_enum(r, "projectBusinessImpact"@, opt_list(a.project_business_impact), business_impacts());
    let q1 = then_enum(q0, "stackLayer"@, opt_list(a.stack_layer), stack_layers());
    let q2 = then_list(q1, "cloudAccountOrCloudOrganizationId"@, opt_list(a.cloud_account));
    let q3 = then_flag(q2, "hasNote"@, a.has_note);
    let q4 = then_flag(q3, "hasServiceTicket"@, a.has_service_ticket);
    let q5 = then_string(q4, "noteContains"@, opt_str(a.note_contains));
    let q6 = then_flag(q5, "validatedAsExploitable"@, a.validated_as_exploitable);
    let q7 = then_string(q6, "threatFileHash"@, opt_str(a.threat_file_hash));
    let q8 = then_string(q7, "threatRuntimeProgramName"@, opt_str(a.threat_runtime_program_name));
    if q8 is Ok {
        let g = q8->Ok_0;
        lemma_string_step(q7, "threatRuntimeProgramName"@, opt_str(a.threat_runtime_program_name));
        lemma_string_step(q6, "threatFileHash"@, opt_str(a.threat_file_hash));
        lemma_flag_step(q5, "validatedAsExploitable"@, a.validated_as_exploitable);
        lemma_string_step(q4, "noteContains"@, opt_str(a.note_contains));
        lemma_flag_step(q3, "hasServiceTicket"@, a.has_service_ticket);
        lemma_flag_step(q2, "hasNote"@, a.has_note);
        lemma_list_step(q1, "cloudAccountOrCloudOrganizationId"@, opt_list(a.cloud_account));
        lemma_enum_step(q0, "stackLayer"@, opt_list(a.stack_layer), stack_layers());
        lemma_enum_step(r, "projectBusinessImpact"@, opt_list(a.project_business_impact), business_impacts());
        lemma_extends_refl(g);
        lemma_extends_trans(q7->Ok_0, q8->Ok_0, g);
        lemma_extends_trans(q6->Ok_0, q7->Ok_0, g);
        lemma_extends_trans(q5->Ok_0, q6->Ok_0, g);
        lemma_extends_trans(q4->Ok_0, q5->Ok_0, g);
        lemma_extends_trans(q3->Ok_0, q4->Ok_0, g);
        lemma_extends_trans(q2->Ok_0, q3->Ok_0, g);
        lemma_extends_trans(q1->Ok_0, q2->Ok_0, g);
        lemma_extends_trans(q0->Ok_0, q1->Ok_0, g);
        lemma_extends_trans(r->Ok_0, q0->Ok_0, g);
        if a.project_business_impact is Some && a.project_business_impact->0.len() > 0 {
            let i = r->Ok_0.len() as int;
            assert(q0->Ok_0[i] == ("projectBusinessImpact"@, str_array_view(strings_view(a.project_business_impact->0@).map_values(|v: Seq<char>| upper(v)))));
            assert(g[i] == q0->Ok_0[i]);
        }
        if a.stack_layer is Some && a.stack_layer->0.len() > 0 {
            let i = q0->Ok_0.len() as int;
            assert(q1->Ok_0[i] == ("stackLayer"@, str_array_view(strings_view(a.stack_layer->0@).map_values(|v: Seq<char>| upper(v)))));
            assert(g[i] == q1->Ok_0[i]);
        }
        if a.cloud_account is Some && a.cloud_account->0.len() > 0 {
            let i = q1->Ok_0.len() as int;
            assert(q2->Ok_0[i] == ("cloudAccountOrCloudOrganizationId"@, str_array_view(strings_view(a.cloud_account->0@))));
            assert(g[i] == q2->Ok_0[i]);
        }
        if a.has_note {
            let i = q2->Ok_0.len() as int;
            assert(q3->Ok_0[i] == ("hasNote"@, JsonView::Bool(true)));
            assert(g[i] == q3->Ok_0[i]);
        }
        if a.has_service_ticket {
            let i = q3->Ok_0.len() as int;
            assert(q4->Ok_0[i] == ("hasServiceTicket"@, JsonView::Bool(true)));
            assert(g[i] == q4->Ok_0[i]);
        }
        if a.note_contains is Some {
            let i = q4->Ok_0.len() as int;
            assert(q5->Ok_0[i] == ("noteContains"@, JsonView::Str(a.note_contains->0@)));
            assert(g[i] == q5->Ok_0[i]);
        }
        if a.validated_as_exploitable {
            let i = q5->Ok_0.len() as int;
            assert(q6->Ok_0[i] == ("validatedAsExploitable"@, JsonView::Bool(true)));
            assert(g[i] == q6->Ok_0[i]);
        }
        if a.threat_file_hash is Some {
            let i = q6->Ok_0.len() as int;
            assert(q7->Ok_0[i] == ("threatFileHash"@, JsonView::Str(a.threat_file_hash->0@)));
            assert(g[i] == q7->Ok_0[i]);
        }
        if a.threat_runtime_program_name is Some {
            let i = q7->Ok_0.len() as int;
            assert(q8->Ok_0[i] == ("threatRuntimeProgramName"@, JsonView::Str(a.threat_runtime_program_name->0@)));
            assert(g[i] == q8->Ok_0[i]);
        }
    }
}

spec fn ranges_of(r: Result<EntriesView, Seq<char>>, a: IssueFilterArgs, now: int) -> Result<EntriesView, Seq<char>> {
    let q1 = then_range(r, "createdAt"@, opt_str(a.since), opt_str(a.created_before), now);
    let q2 = then_range(q1, "resolvedAt"@, opt_str(a.resolved_since), opt_str(a.resolved_before), now);
    let q3 = then_range(q2, "statusChangedAt"@, opt_str(a.status_changed_since), None, now);
    let q4 = then_range(q3, "dueAt"@, opt_str(a.due_since), opt_str(a.due_before), now);
    then_range(q4, "threatLastGroupedAt"@, opt_str(a.threat_last_grouped_since), None, now)
}

proof fn lemma_ranges_extend(r: Result<EntriesView, Seq<char>>, a: IssueFilterArgs, now: int)
    ensures
        ranges_of(r, a, now) matches Ok(g) ==> r is Ok && extends(r->Ok_0, g),
{
    let q1 = then_range(r, "createdAt"@, opt_str(a.since), opt_str(a.created_before), now);
    let q2 = then_range(q1, "resolvedAt"@, opt_str(a.resolved_since), opt_str(a.resolved_before), now);
    let q3 = then_range(q2, "statusChangedAt"@, opt_str(a.status_changed_since), None, now);
    let q4 = then_range(q3, "dueAt"@, opt_str(a.due_since), opt_str(a.due_before), now);
    let q5 = then_range(q4, "threatLastGroupedAt"@, opt_str(a.threat_last_grouped_since), None, now);
    if let Ok(g) = q5 {
        lemma_range_step(q4, "threatLastGroupedAt"@, opt_str(a.threat_last_grouped_since), None, now);
        lemma_range_step(q3, "dueAt"@, opt_str(a.due_since), opt_str(a.due_before), now);
        lemma_range_step(q2, "statusChangedAt"@, opt_str(a.status_changed_since), None, now);
        lemma_range_step(q1, "resolvedAt"@, opt_str(a.resolved_since), opt_str(a.resolved_before), now);
        lemma_range_step(r, "createdAt"@, opt_str(a.since), opt_str(a.created_before), now);
        lemma_extends_trans(q3->Ok_0, q4->Ok_0, g);
        lemma_extends_trans(q2->Ok_0, q3->Ok_0, g);
        lemma_extends_trans(q1->Ok_0, q2->Ok_0, g);
        lemma_extends_trans(r->Ok_0, q1->Ok_0, g);
    }
}

proof fn lemma_extends_contains(f: EntriesView, g: EntriesView, e: (Seq<char>, JsonView))
    requires
        extends(f, g),
        f.contains(e),
    ensures
        g.contains(e),
{
    let i = choose|i: int| 0 <= i < f.len() && f[i] == e;
    assert(g[i] == f[i]);
}

proof fn lemma_get_member(f: EntriesView, e: (Seq<char>, JsonView))
    requires
        keys_distinct(f),
        f.contains(e),
    ensures
        entries_get(f, e.0) == Some(e.1),
{
    let i = choose|i: int| 0 <= i < f.len() && f[i] == e;
    lemma_get_at(f, i);
}


proof fn lemma_filters_split(a: IssueFilterArgs, now: int)
    ensures
        plain_filters_spec(a) == plain_tail(plain_head(a), a),
        filters_spec(a, now) == ranges_of(plain_filters_spec(a), a, now),
{
}

/// Every filter given is sent, with all its values: a list filter (`id`,
/// `project`, `assignee`, `environment`, `cloudAccountOrCloudOrganizationId`)
/// given values holds exactly those values, in order; an enum list filter
/// holds every given value upper-cased, in order; a text filter holds its
/// text; a switch that is set holds `true`.
#[verifier::rlimit(100)]
#[verifier::spinoff_prover]
pub proof fn lemma_filter_values(a: IssueFilterArgs, now: int)
    ensures
        filters_spec(a, now) matches Ok(f) ==> {
            &&& (a.id is Some && a.id->0.len() > 0) ==> entries_get(f, "id"@) == Some(str_array_view(strings_view(a.id->0@)))
            &&& (a.search is Some) ==> entries_get(f, "search"@) == Some(JsonView::Str(a.search->0@))
            &&& (a.severity is Some && a.severity->0.len() > 0) ==> entries_get(f, "severity"@) == Some(str_array_view(strings_view(a.severity->0@).map_values(|v: Seq<char>| upper(v))))
            &&& (a.status is Some && a.status->0.len() > 0) ==> entries_get(f, "status"@) == Some(str_array_view(strings_view(a.status->0@).map_values(|v: Seq<char>| upper(v))))
            &&& (a.issue_type is Some && a.issue_type->0.len() > 0) ==> entries_get(f, "type"@) == Some(str_array_view(strings_view(a.issue_type->0@).map_values(|v: Seq<char>| upper(v))))
            &&& (a.project is Some && a.project->0.len() > 0) ==> entries_get(f, "project"@) == Some(str_array_view(strings_view(a.project->0@)))
            &&& (a.resolution_reason is Some && a.resolution_reason->0.len() > 0) ==> entries_get(f, "resolutionReason"@) == Some(str_array_view(strings_view(a.resolution_reason->0@).map_values(|v: Seq<char>| upper(v))))
            &&& (a.assignee is Some && a.assignee->0.len() > 0) ==> entries_get(f, "assignee"@) == Some(str_array_view(strings_view(a.assignee->0@)))
            &&& (a.environment is Some && a.environment->0.len() > 0) ==> entries_get(f, "environment"@) == Some(str_array_view(strings_view(a.environment->0@)))
            &&& (a.project_business_impact is Some && a.project_business_impact->0.len() > 0) ==> entries_get(f, "projectBusinessImpact"@) == Some(str_array_view(strings_view(a.project_business_impact->0@).map_values(|v: Seq<char>| upper(v))))
            &&& (a.stack_layer is Some && a.stack_layer->0.len() > 0) ==> entries_get(f, "stackLayer"@) == Some(str_array_view(strings_view(a.stack_layer->0@).map_values(|v: Seq<char>| upper(v))))
            &&& (a.cloud_account is Some && a.cloud_account->0.len() > 0) ==> entries_get(f, "cloudAccountOrCloudOrganizationId"@) == Some(str_array_view(strings_view(a.cloud_account->0@)))
            &&& (a.has_note) ==> entries_get(f, "hasNote"@) == Some(JsonView::Bool(true))
            &&& (a.has_service_ticket) ==> entries_get(f, "hasServiceTicket"@) == Some(JsonView::Bool(true))
            &&& (a.note_contains is Some) ==> entries_get(f, "noteContains"@) == Some(JsonView::Str(a.note_contains->0@))
            &&& (a.validated_as_exploitable) ==> entries_get(f, "validatedAsExploitable"@) == Some(JsonView::Bool(true))
            &&& (a.threat_file_hash is Some) ==> entries_get(f, "threatFileHash"@) == Some(JsonView::Str(a.threat_file_hash->0@))
            &&& (a.threat_runtime_program_name is Some) ==> entries_get(f, "threatRuntimeProgramName"@) == Some(JsonView::Str(a.threat_runtime_program_name->0@))
        },
{
    lemma_filters_split(a, now);
    if let Ok(f) = filters_spec(a, now) {
        lemma_filter_keys_distinct(a, now);
        lemma_ranges_extend(plain_filters_spec(a), a, now);
        let f0 = plain_filters_spec(a)->Ok_0;
        lemma_plain_tail_members(plain_head(a), a);
        let h = plain_head(a)->Ok_0;
        lemma_plain_head_members(a);
        if a.id is Some && a.id->0.len() > 0 {
            lemma_extends_contains(h, f0, ("id"@, str_array_view(strings_view(a.id->0@))));
            lemma_extends_contains(f0, f, ("id"@, str_array_view(strings_view(a.id->0@))));
            lemma_get_member(f, ("id"@, str_array_view(strings_view(a.id->0@))));
        }
        if a.search is Some {
            lemma_extends_contains(h, f0, ("search"@, JsonView::Str(a.search->0@)));
            lemma_extends_contains(f0, f, ("search"@, JsonView::Str(a.search->0@)));
            lemma_get_member(f, ("search"@, JsonView::Str(a.search->0@)));
        }
        if a.severity is Some && a.severity->0.len() > 0 {
            lemma_extends_contains(h, f0, ("severity"@, str_array_view(strings_view(a.severity->0@).map_values(|v: Seq<char>| upper(v)))));
            lemma_extends_contains(f0, f, ("severity"@, str_array_view(strings_view(a.severity->0@).map_values(|v: Seq<char>| upper(v)))));
            lemma_get_member(f, ("severity"@, str_array_view(strings_view(a.severity->0@).map_values(|v: Seq<char>| upper(v)))));
        }
        if a.status is Some && a.status->0.len() > 0 {
            lemma_extends_contains(h, f0, ("status"@, str_array_view(strings_view(a.status->0@).map_values(|v: Seq<char>| upper(v)))));
            lemma_extends_contains(f0, f, ("status"@, str_array_view(strings_view(a.status->0@).map_values(|v: Seq<char>| upper(v)))));
            lemma_get_member(f, ("status"@, str_array_view(strings_view(a.status->0@).map_values(|v: Seq<char>| upper(v)))));
        }
        if a.issue_type is Some && a.issue_type->0.len() > 0 {
            lemma_extends_contains(h, f0, ("type"@, str_array_view(strings_view(a.issue_type->0@).map_values(|v: Seq<char>| upper(v)))));
            lemma_extends_contains(f0, f, ("type"@, str_array_view(strings_view(a.issue_type->0@).map_values(|v: Seq<char>| upper(v)))));
            lemma_get_member(f, ("type"@, str_array_view(strings_view(a.issue_type->0@).map_values(|v: Seq<char>| upper(v)))));
        }
        if a.project is Some && a.project->0.len() > 0 {
            lemma_extends_contains(h, f0, ("project"@, str_array_view(strings_view(a.project->0@))));
            lemma_extends_contains(f0, f, ("project"@, str_array_view(strings_view(a.project->0@))));
            lemma_get_member(f, ("project"@, str_array_view(strings_view(a.project->0@))));
        }
        if a.resolution_reason is Some && a.resolution_reason->0.len() > 0 {
            lemma_extends_contains(h, f0, ("resolutionReason"@, str_array_view(strings_view(a.resolution_reason->0@).map_values(|v: Seq<char>| upper(v)))));
            lemma_extends_contains(f0, f, ("resolutionReason"@, str_array_view(strings_view(a.resolution_reason->0@).map_values(|v: Seq<char>| upper(v)))));
            lemma_get_member(f, ("resolutionReason"@, str_array_view(strings_view(a.resolution_reason->0@).map_values(|v: Seq<char>| upper(v)))));
        }
        if a.assignee is Some && a.assignee->0.len() > 0 {
            lemma_extends_contains(h, f0, ("assignee"@, str_array_view(strings_view(a.assignee->0@))));
            lemma_extends_contains(f0, f, ("assignee"@, str_array_view(strings_view(a.assignee->0@))));
            lemma_get_member(f, ("assignee"@, str_array_view(strings_view(a.assignee->0@))));
        }
        if a.environment is Some && a.environment->0.len() > 0 {
            lemma_extends_contains(h, f0, ("environment"@, str_array_view(strings_view(a.environment->0@))));
            lemma_extends_contains(f0, f, ("environment"@, str_array_view(strings_view(a.environment->0@))));
            lemma_get_member(f, ("environment"@, str_array_view(strings_view(a.environment->0@))));
        }
        if a.project_business_impact is Some && a.project_business_impact->0.len() > 0 {
            lemma_extends_contains(f0, f, ("projectBusinessImpact"@, str_array_view(strings_view(a.project_business_impact->0@).map_values(|v: Seq<char>| upper(v)))));
            lemma_get_member(f, ("projectBusinessImpact"@, str_array_view(strings_view(a.project_business_impact->0@).map_values(|v: Seq<char>| upper(v)))));
        }
        if a.stack_layer is Some && a.stack_layer->0.len() > 0 {
            lemma_extends_contains(f0, f, ("stackLayer"@, str_array_view(strings_view(a.stack_layer->0@).map_values(|v: Seq<char>| upper(v)))));
            lemma_get_member(f, ("stackLayer"@, str_array_view(strings_view(a.stack_layer->0@).map_values(|v: Seq<char>| upper(v)))));
        }
        if a.cloud_account is Some && a.cloud_account->0.len() > 0 {
            lemma_extends_contains(f0, f, ("cloudAccountOrCloudOrganizationId"@, str_array_view(strings_view(a.cloud_account->0@))));
            lemma_get_member(f, ("cloudAccountOrCloudOrganizationId"@, str_array_view(strings_view(a.cloud_account->0@))));
        }
        if a.has_note {
            lemma_extends_contains(f0, f, ("hasNote"@, JsonView::Bool(true)));
            lemma_get_member(f, ("hasNote"@, JsonView::Bool(true)));
        }
        if a.has_service_ticket {
            lemma_extends_contains(f0, f, ("hasServiceTicket"@, JsonView::Bool(true)));
            lemma_get_member(f, ("hasServiceTicket"@, JsonView::Bool(true)));
        }
        if a.note_contains is Some {
            lemma_extends_contains(f0, f, ("noteContains"@, JsonView::Str(a.note_contains->0@)));
            lemma_get_member(f, ("noteContains"@, JsonView::Str(a.note_contains->0@)));
        }
        if a.validated_as_exploitable {
            lemma_extends_contains(f0, f, ("validatedAsExploitable"@, JsonView::Bool(true)));
            lemma_get_member(f, ("validatedAsExploitable"@, JsonView::Bool(true)));
        }
        if a.threat_file_hash is Some {
            lemma_extends_contains(f0, f, ("threatFileHash"@, JsonView::Str(a.threat_file_hash->0@)));
            lemma_get_member(f, ("threatFileHash"@, JsonView::Str(a.threat_file_hash->0@)));
        }
        if a.threat_runtime_program_name is Some {
            lemma_extends_contains(f0, f, ("threatRuntimeProgramName"@, JsonView::Str(a.threat_runtime_program_name->0@)));
            lemma_get_member(f, ("threatRuntimeProgramName"@, JsonView::Str(a.threat_runtime_program_name->0@)));
        }
    }
}

} // verus!
