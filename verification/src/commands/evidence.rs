use vstd::prelude::*;
use vstd::string::*;

use crate::commands::issue_engine::{
    clone_values, connection_output, connection_value, no_next_page, no_next_page_value,
    opt_str, push_entry,
};
use crate::json::{
    clone_json, data_member, entries_view, get_data_member, json_as_array, json_as_bool,
    json_as_str, json_get, values_view, JsonValue, JsonView,
};

verus! {

/// The evidence-record query of an issue.
pub const QUERY: &'static str = "query IssueEvidenceRecords($filterBy: IssueEvidenceRecordFilters, $first: Int, $after: String) {\n  issueEvidenceRecords(filterBy: $filterBy, first: $first, after: $after) {\n    nodes {\n      id\n      entity { id name type }\n      vulnerability { id }\n      secret { id }\n      excessiveAccessFinding { id }\n    }\n    pageInfo { hasNextPage endCursor }\n    totalCount\n  }\n}";

/// The paging state of an evidence listing.
pub struct EvidencePager {
    issue_id: String,
    nodes: Vec<JsonValue>,
    after: Option<String>,
    total_count: Option<JsonValue>,
    page_info: JsonValue,
    finished: bool,
}

pub struct EvidenceView {
    pub issue_id: Seq<char>,
    pub nodes: Seq<JsonView>,
    pub after: Option<Seq<char>>,
    pub total_count: Option<JsonView>,
    pub page_info: JsonView,
    pub finished: bool,
}

pub open spec fn opt_json(v: Option<JsonValue>) -> Option<JsonView> {
    match v {
        Some(x) => Some(x@),
        None => None,
    }
}

impl View for EvidencePager {
    type V = EvidenceView;

    closed spec fn view(&self) -> EvidenceView {
        EvidenceView {
            issue_id: self.issue_id@,
            nodes: values_view(self.nodes@),
            after: opt_str(self.after),
            total_count: opt_json(self.total_count),
            page_info: self.page_info@,
            finished: self.finished,
        }
    }
}

/// What the evidence loop does next.
pub enum EvidenceStep {
    /// Ask for the next page with these variables.
    Request(JsonValue),
    /// Stop and print this listing.
    Done(JsonValue),
}

pub enum EvidenceStepView {
    Request(JsonView),
    Done(JsonView),
}

/// The variables of one evidence page: the issue, 500 records, the cursor.
pub open spec fn evidence_variables(id: Seq<char>, after: Option<Seq<char>>) -> JsonView {
    let v = seq![
        ("filterBy"@, JsonView::Object(seq![("issueId"@, JsonView::Str(id))], None)),
        ("first"@, JsonView::Number("500"@)),
    ];
    JsonView::Object(
        match after {
            Some(c) => v.push(("after"@, JsonView::Str(c))),
            None => v,
        },
        None,
    )
}

pub open spec fn evidence_step_spec(p: EvidenceView) -> EvidenceStepView {
    if p.finished {
        EvidenceStepView::Done(
            connection_output(
                p.nodes,
                p.page_info,
                match p.total_count {
                    Some(t) => t,
                    None => JsonView::Null,
                },
            ),
        )
    } else {
        EvidenceStepView::Request(evidence_variables(p.issue_id, p.after))
    }
}

/// The state after an evidence page arrives; the total comes from the first page.
pub open spec fn evidence_record_spec(p: EvidenceView, response: JsonView) -> Result<EvidenceView, Seq<char>> {
    match data_member(response, "issueEvidenceRecords"@) {
        None => Err("Wiz response is missing data.issueEvidenceRecords"@),
        Some(conn) => match json_as_array(json_get(conn, "nodes"@)) {
            None => Err("Wiz response is missing data.issueEvidenceRecords.nodes"@),
            Some(page) => {
                let nodes = p.nodes + page;
                let total = match p.total_count {
                    Some(t) => Some(t),
                    None => Some(
                        match json_get(conn, "totalCount"@) {
                            Some(t) => t,
                            None => JsonView::Null,
                        },
                    ),
                };
                match json_get(conn, "pageInfo"@) {
                    None => Err("Wiz response is missing data.issueEvidenceRecords.pageInfo"@),
                    Some(info) => {
                        let has_next = match json_as_bool(json_get(info, "hasNextPage"@)) {
                            Some(b) => b,
                            None => false,
                        };
                        if !has_next {
                            Ok(
                                EvidenceView {
                                    nodes: nodes,
                                    total_count: total,
                                    page_info: info,
                                    finished: true,
                                    ..p
                                },
                            )
                        } else {
                            match json_as_str(json_get(info, "endCursor"@)) {
                                None => Err(
                                    "Wiz response has no endCursor for the next evidence page"@,
                                ),
                                Some(c) => Ok(
                                    EvidenceView {
                                        nodes: nodes,
                                        total_count: total,
                                        page_info: info,
                                        after: Some(c),
                                        ..p
                                    },
                                ),
                            }
                        }
                    },
                }
            },
        },
    }
}

impl EvidencePager {
    /// The evidence listing of issue `id`.
    pub fn new(id: &str) -> (r: EvidencePager)
        ensures
            r@ == (EvidenceView {
                issue_id: id@,
                nodes: Seq::empty(),
                after: None,
                total_count: None,
                page_info: no_next_page(),
                finished: false,
            }),
    {
        let r = EvidencePager {
            issue_id: String::from_str(id),
            nodes: Vec::new(),
            after: None,
            total_count: None,
            page_info: no_next_page_value(),
            finished: false,
        };
        assert(values_view(r.nodes@) =~= Seq::<JsonView>::empty());
        r
    }

    /// What to do next: ask for a page, or stop with the combined listing.
    pub fn step(&self) -> (r: EvidenceStep)
        ensures
            match evidence_step_spec(self@) {
                EvidenceStepView::Request(v) => (r matches EvidenceStep::Request(x) && x@ == v),
                EvidenceStepView::Done(v) => (r matches EvidenceStep::Done(x) && x@ == v),
            },
    {
        if self.finished {
            let total = match &self.total_count {
                Some(t) => clone_json(t),
                None => JsonValue::Null,
            };
            return EvidenceStep::Done(
                connection_value(clone_values(&self.nodes), clone_json(&self.page_info), total),
            );
        }
        let mut filter: Vec<(String, JsonValue)> = Vec::new();
        assert(entries_view(filter@) =~= Seq::<(Seq<char>, JsonView)>::empty());
        push_entry(&mut filter, "issueId", JsonValue::Str(self.issue_id.clone()));
        let ghost fv = entries_view(filter@);
        assert(fv =~= seq![("issueId"@, JsonView::Str(self.issue_id@))]);
        let mut vars: Vec<(String, JsonValue)> = Vec::new();
        assert(entries_view(vars@) =~= Seq::<(Seq<char>, JsonView)>::empty());
        push_entry(&mut vars, "filterBy", JsonValue::object(filter));
        push_entry(&mut vars, "first", JsonValue::Number(String::from_str("500")));
        if let Some(c) = &self.after {
            push_entry(&mut vars, "after", JsonValue::Str(c.clone()));
        }
        let ghost expected = evidence_variables(self.issue_id@, opt_str(self.after));
        assert(entries_view(vars@) =~= expected->Object_0);
        EvidenceStep::Request(JsonValue::object(vars))
    }

    /// Takes in the response to the last page request.
    pub fn record_page(&mut self, response: &JsonValue) -> (res: Result<(), String>)
        ensures
            match evidence_record_spec(old(self)@, response@) {
                Ok(p) => res is Ok && final(self)@ == p,
                Err(m) => (res matches Err(msg) && msg@ == m),
            },
    {
        let conn = match get_data_member(response, "issueEvidenceRecords") {
            Some(c) => c,
            None => {
                return Err(String::from_str("Wiz response is missing data.issueEvidenceRecords"));
            },
        };
        let page = match conn.get("nodes") {
            Some(n) => match n.as_array() {
                Some(p) => p,
                None => {
                    return Err(
                        String::from_str("Wiz response is missing data.issueEvidenceRecords.nodes"),
                    );
                },
            },
            None => {
                return Err(
                    String::from_str("Wiz response is missing data.issueEvidenceRecords.nodes"),
                );
            },
        };
        let ghost before = values_view(self.nodes@);
        let mut i: usize = 0;
        while i < page.len()
            invariant
                i <= page.len(),
                values_view(self.nodes@) == before + values_view(page@.take(i as int)),
                self.issue_id == old(self).issue_id,
                self.after == old(self).after,
                self.total_count == old(self).total_count,
                self.finished == old(self).finished,
                before == values_view(old(self).nodes@),
            decreases page.len() - i,
        {
            let x = clone_json(&page[i]);
            let ghost prev = self.nodes@;
            self.nodes.push(x);
            assert(self.nodes@.drop_last() =~= prev);
            assert(page@.take(i + 1).drop_last() =~= page@.take(i as int));
            i = i + 1;
            assert(values_view(self.nodes@) =~= before + values_view(page@.take(i as int)));
        }
        assert(page@.take(page.len() as int) =~= page@);
        if self.total_count.is_none() {
            self.total_count = Some(
                match conn.get("totalCount") {
                    Some(t) => clone_json(t),
                    None => JsonValue::Null,
                },
            );
        }
        let info = match conn.get("pageInfo") {
            Some(p) => p,
            None => {
                return Err(
                    String::from_str("Wiz response is missing data.issueEvidenceRecords.pageInfo"),
                );
            },
        };
        self.page_info = clone_json(info);
        let has_next = match info.get("hasNextPage") {
            Some(h) => match h.as_bool() {
                Some(b) => b,
                None => false,
            },
            None => false,
        };
        if !has_next {
            self.finished = true;
            return Ok(());
        }
        match info.get("endCursor") {
            Some(c) => match c.as_str() {
                Some(s) => {
                    self.after = Some(String::from_str(s));
                    Ok(())
                },
                None => Err(
                    String::from_str("Wiz response has no endCursor for the next evidence page"),
                ),
            },
            None => Err(String::from_str("Wiz response has no endCursor for the next evidence page")),
        }
    }
}

} // verus!
