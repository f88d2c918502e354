//! Label sets: the aggregation keys of the metric families.
//!
//! A label set is an immutable record of named dimensions. One dimension
//! (the request method) is drawn from a closed set of symbols; the others
//! are free-form text or a small integer. Two label sets are equal exactly
//! when every dimension compares equal.

use vstd::prelude::*;

verus! {

/// The closed set of values the `method` label dimension may take.
#[derive(Clone, Copy, Debug, PartialEq, Eq, Structural)]
pub enum Method {
    Get,
    Post,
}

/// Mathematical model of an [`AppLabels`] value.
pub ghost struct AppLabelsV {
    pub method: Method,
    pub script_name: Seq<char>,
    pub namespace: Seq<char>,
    pub app: Seq<char>,
}

/// Label set keying the request-counter family.
#[derive(Debug)]
pub struct AppLabels {
    pub method: Method,
    pub script_name: String,
    pub namespace: String,
    pub app: String,
}

impl View for AppLabels {
    type V = AppLabelsV;

    open spec fn view(&self) -> AppLabelsV {
        AppLabelsV {
            method: self.method,
            script_name: self.script_name@,
            namespace: self.namespace@,
            app: self.app@,
        }
    }
}

impl PartialEq for AppLabels {
    fn eq(&self, other: &AppLabels) -> (r: bool) {
        self.method == other.method && self.script_name == other.script_name
            && self.namespace == other.namespace && self.app == other.app
    }
}

impl vstd::std_specs::cmp::PartialEqSpecImpl for AppLabels {
    open spec fn obeys_eq_spec() -> bool {
        true
    }

    open spec fn eq_spec(&self, other: &AppLabels) -> bool {
        self@ == other@
    }
}

impl AppLabels {
    /// A fresh label set with the same dimensions.
    pub fn duplicate(&self) -> (r: AppLabels)
        ensures
            r@ == self@,
    {
        AppLabels {
            method: self.method,
            script_name: self.script_name.clone(),
            namespace: self.namespace.clone(),
            app: self.app.clone(),
        }
    }
}

/// Mathematical model of a [`LatencyLabels`] value.
pub ghost struct LatencyLabelsV {
    pub method: Method,
    pub typ: Seq<char>,
    pub module: Seq<char>,
    pub status: int,
}

/// Label set keying the latency-histogram family.
#[derive(Debug)]
pub struct LatencyLabels {
    pub method: Method,
    pub typ: String,
    pub module: String,
    pub status: i8,
}

impl View for LatencyLabels {
    type V = LatencyLabelsV;

    open spec fn view(&self) -> LatencyLabelsV {
        LatencyLabelsV {
            method: self.method,
            typ: self.typ@,
            module: self.module@,
            status: self.status as int,
        }
    }
}

impl PartialEq for LatencyLabels {
    fn eq(&self, other: &LatencyLabels) -> (r: bool) {
        self.method == other.method && self.typ == other.typ && self.module == other.module
            && self.status == other.status
    }
}

impl vstd::std_specs::cmp::PartialEqSpecImpl for LatencyLabels {
    open spec fn obeys_eq_spec() -> bool {
        true
    }

    open spec fn eq_spec(&self, other: &LatencyLabels) -> bool {
        self@ == other@
    }
}

impl LatencyLabels {
    /// A fresh label set with the same dimensions.
    pub fn duplicate(&self) -> (r: LatencyLabels)
        ensures
            r@ == self@,
    {
        LatencyLabels {
            method: self.method,
            typ: self.typ.clone(),
            module: self.module.clone(),
            status: self.status,
        }
    }
}

/// The request-count payload reported by a caller: the open text dimensions
/// of an [`AppLabels`] key.
#[derive(Debug)]
pub struct AppInfo {
    pub script_name: String,
    pub namespace: String,
    pub app: String,
}

/// The latency payload reported by a caller: a duration magnitude and the
/// open dimensions of a [`LatencyLabels`] key.
#[derive(Debug)]
pub struct LatencyInfo {
    pub duration: i64,
    pub typ: String,
    pub module: String,
    pub status: i8,
}

/// The fixed label set incremented by the smoke-test operation.
pub fn test_labels() -> (l: AppLabels)
    ensures
        l@ == (AppLabelsV {
            method: Method::Get,
            script_name: "test-script"@,
            namespace: "test"@,
            app: "test"@,
        }),
{
    AppLabels {
        method: Method::Get,
        script_name: "test-script".to_owned(),
        namespace: "test".to_owned(),
        app: "test".to_owned(),
    }
}

/// The counter label set for a reported request: method fixed to `Post`,
/// the open dimensions taken from the payload.
pub fn script_labels(info: &AppInfo) -> (l: AppLabels)
    ensures
        l@ == (AppLabelsV {
            method: Method::Post,
            script_name: info.script_name@,
            namespace: info.namespace@,
            app: info.app@,
        }),
{
    AppLabels {
        method: Method::Post,
        script_name: info.script_name.clone(),
        namespace: info.namespace.clone(),
        app: info.app.clone(),
    }
}

/// The histogram label set for a reported latency sample: method fixed to
/// `Post`, the open dimensions taken from the payload.
pub fn latency_labels(info: &LatencyInfo) -> (l: LatencyLabels)
    ensures
        l@ == (LatencyLabelsV {
            method: Method::Post,
            typ: info.typ@,
            module: info.module@,
            status: info.status as int,
        }),
{
    LatencyLabels {
        method: Method::Post,
        typ: info.typ.clone(),
        module: info.module.clone(),
        status: info.status,
    }
}

} // verus!
