//! What the dashboard asks Prometheus for on each page: the grouping and resource of each
//! request, the query text and step it sends, and the check that an answer is of the kind
//! asked for.
use vstd::prelude::*;
use crate::prometheus::{capacity_query, capacity_query_text, usage_query, usage_query_text, Grouping, Resource};
use crate::prometheus::PrometheusTimeScale as Scale;
use crate::text::{chars_of, string_of};
use crate::tres_map::NameMap;
use crate::tui::{AppError, CapacityData, UsageData};

verus! {

/// The step between the points the dashboard asks for.
#[derive(Debug, Clone, Copy, PartialEq, Eq)]
pub enum PrometheusTimeScale {
    Minute,
    Hour,
    Day,
    Week,
    Year,
}

/// How the request writes a step.
pub open spec fn step_text(s: PrometheusTimeScale) -> Seq<char> {
    match s {
        PrometheusTimeScale::Minute => "1m"@,
        PrometheusTimeScale::Hour => "1h"@,
        PrometheusTimeScale::Day => "1d"@,
        PrometheusTimeScale::Week => "1w"@,
        PrometheusTimeScale::Year => "1Y"@,
    }
}

impl PrometheusTimeScale {
    /// How the request writes this step.
    pub fn label(&self) -> (s: String)
        ensures
            s@ == step_text(*self),
    {
        let t = match self {
            PrometheusTimeScale::Minute => chars_of("1m"),
            PrometheusTimeScale::Hour => chars_of("1h"),
            PrometheusTimeScale::Day => chars_of("1d"),
            PrometheusTimeScale::Week => chars_of("1w"),
            PrometheusTimeScale::Year => chars_of("1Y"),
        };
        string_of(&t)
    }
}

/// One request: what to group by, which resource, over how many steps of which length.
#[derive(Debug, Clone, Copy, PartialEq, Eq)]
pub struct PrometheusRequest {
    pub grouping: Option<Grouping>,
    pub resource: Resource,
    pub range: i64,
    pub time_scale: PrometheusTimeScale,
}

impl PrometheusRequest {
    pub fn new(grouping: Option<Grouping>, resource: Resource, range: i64, time_scale: PrometheusTimeScale) -> (r: Self)
        ensures
            r == (PrometheusRequest { grouping, resource, range, time_scale }),
    {
        PrometheusRequest { grouping, resource, range, time_scale }
    }
}

/// Which kind of data to fetch.
#[derive(Debug, Clone, Copy, PartialEq, Eq)]
pub enum PrometheusDataType {
    Usage,
    Capacity,
}

/// The data fetched, of either kind.
#[derive(Debug)]
pub enum PrometheusDataResult {
    Usage(UsageData),
    Capacity(CapacityData),
}

/// The query a request sends: its text, the kind of data it asks for, its range and its
/// step as written.
#[derive(Debug)]
pub struct PrometheusQuery {
    pub data_type: PrometheusDataType,
    pub query: String,
    pub range: i64,
    pub step: String,
}

/// What a request sends for data of kind `data_type`: the usage query for its grouping, which
/// a usage request must have, or the capacity query with its grouping if any.
pub fn prometheus_data_request(request: PrometheusRequest, data_type: PrometheusDataType) -> (q: PrometheusQuery)
    requires
        data_type == PrometheusDataType::Usage ==> request.grouping is Some,
    ensures
        q.data_type == data_type,
        q.query@ == (match data_type {
            PrometheusDataType::Usage => usage_query_text(request.grouping->0, request.resource),
            PrometheusDataType::Capacity => capacity_query_text(request.grouping, request.resource),
        }),
        q.range == request.range,
        q.step@ == step_text(request.time_scale),
{
    let query = match data_type {
        PrometheusDataType::Usage => usage_query(request.grouping.unwrap(), request.resource),
        PrometheusDataType::Capacity => capacity_query(request.grouping, request.resource),
    };
    PrometheusQuery { data_type, query, range: request.range, step: request.time_scale.label() }
}

/// The data a query's answer makes, of the kind it asked for.
pub fn data_result(data_type: PrometheusDataType, data: NameMap<Vec<u64>>) -> (r: PrometheusDataResult)
    ensures
        match data_type {
            PrometheusDataType::Usage => r == PrometheusDataResult::Usage(UsageData { source_data: data }),
            PrometheusDataType::Capacity => r == PrometheusDataResult::Capacity(
                CapacityData { capacities: data },
            ),
        },
{
    match data_type {
        PrometheusDataType::Usage => PrometheusDataResult::Usage(UsageData { source_data: data }),
        PrometheusDataType::Capacity => PrometheusDataResult::Capacity(CapacityData { capacities: data }),
    }
}

/// The request of the cores-by-account page.
pub fn get_cpu_by_account_data(range: i64, time_scale: PrometheusTimeScale) -> (r: PrometheusRequest)
    ensures
        r == (PrometheusRequest { grouping: Some(Grouping::Account), resource: Resource::Cpus, range, time_scale }),
{
    PrometheusRequest::new(Some(Grouping::Account), Resource::Cpus, range, time_scale)
}

/// The capacity request of the cores-by-account page.
pub fn get_cpu_capacity_by_account(range: i64, time_scale: PrometheusTimeScale) -> (r: PrometheusRequest)
    ensures
        r == (PrometheusRequest { grouping: Some(Grouping::Account), resource: Resource::Cpus, range, time_scale }),
{
    PrometheusRequest::new(Some(Grouping::Account), Resource::Cpus, range, time_scale)
}

/// The request of the cores-by-node page.
pub fn get_cpu_by_node_data(range: i64, time_scale: PrometheusTimeScale) -> (r: PrometheusRequest)
    ensures
        r == (PrometheusRequest { grouping: Some(Grouping::Nodes), resource: Resource::Cpus, range, time_scale }),
{
    PrometheusRequest::new(Some(Grouping::Nodes), Resource::Cpus, range, time_scale)
}

/// The capacity request of the cores-by-node page.
pub fn get_cpu_capacity_by_node(range: i64, time_scale: PrometheusTimeScale) -> (r: PrometheusRequest)
    ensures
        r == (PrometheusRequest { grouping: Some(Grouping::Nodes), resource: Resource::Cpus, range, time_scale }),
{
    PrometheusRequest::new(Some(Grouping::Nodes), Resource::Cpus, range, time_scale)
}

/// The request of the GPUs-by-type page.
pub fn get_gpu_by_type_data(range: i64, time_scale: PrometheusTimeScale) -> (r: PrometheusRequest)
    ensures
        r == (PrometheusRequest { grouping: Some(Grouping::GpuType), resource: Resource::Gpus, range, time_scale }),
{
    PrometheusRequest::new(Some(Grouping::GpuType), Resource::Gpus, range, time_scale)
}

/// The capacity request of the GPUs-by-type page.
pub fn get_gpu_capacity_by_type(range: i64, time_scale: PrometheusTimeScale) -> (r: PrometheusRequest)
    ensures
        r == (PrometheusRequest { grouping: Some(Grouping::GpuType), resource: Resource::Gpus, range, time_scale }),
{
    PrometheusRequest::new(Some(Grouping::GpuType), Resource::Gpus, range, time_scale)
}

/// The usage data of an answer; an error where it failed, or where it is capacity data.
pub fn usage_from(result: Result<PrometheusDataResult, AppError>) -> (r: Result<UsageData, AppError>)
    ensures
        match result {
            Ok(PrometheusDataResult::Usage(u)) => r == Ok::<UsageData, AppError>(u),
            Ok(PrometheusDataResult::Capacity(_)) => r matches Err(AppError::DataFetch(s)) && s@
                == "Unexpected data type returned. Expected Usage."@,
            Err(e) => r == Err::<UsageData, AppError>(e),
        },
{
    match result {
        Ok(PrometheusDataResult::Usage(u)) => Ok(u),
        Ok(PrometheusDataResult::Capacity(_)) => Err(
            AppError::DataFetch(string_of(&chars_of("Unexpected data type returned. Expected Usage."))),
        ),
        Err(e) => Err(e),
    }
}

/// The capacity data of an answer; an error where it failed, or where it is usage data.
pub fn capacity_from(result: Result<PrometheusDataResult, AppError>) -> (r: Result<CapacityData, AppError>)
    ensures
        match result {
            Ok(PrometheusDataResult::Capacity(c)) => r == Ok::<CapacityData, AppError>(c),
            Ok(PrometheusDataResult::Usage(_)) => r matches Err(AppError::DataFetch(s)) && s@
                == "Unexpected data type returned. Expected Capacity."@,
            Err(e) => r == Err::<CapacityData, AppError>(e),
        },
{
    match result {
        Ok(PrometheusDataResult::Capacity(c)) => Ok(c),
        Ok(PrometheusDataResult::Usage(_)) => Err(
            AppError::DataFetch(string_of(&chars_of("Unexpected data type returned. Expected Capacity."))),
        ),
        Err(e) => Err(e),
    }
}

/// The step of the dashboard's query as a request names it.
pub open spec fn unit_of_scale(scale: Scale) -> PrometheusTimeScale {
    match scale {
        Scale::Minutes => PrometheusTimeScale::Minute,
        Scale::Hours => PrometheusTimeScale::Hour,
        Scale::Days => PrometheusTimeScale::Day,
        Scale::Weeks => PrometheusTimeScale::Week,
        Scale::Years => PrometheusTimeScale::Year,
    }
}

/// The step a request names, as the range of its series is measured.
pub open spec fn scale_of_unit(unit: PrometheusTimeScale) -> Scale {
    match unit {
        PrometheusTimeScale::Minute => Scale::Minutes,
        PrometheusTimeScale::Hour => Scale::Hours,
        PrometheusTimeScale::Day => Scale::Days,
        PrometheusTimeScale::Week => Scale::Weeks,
        PrometheusTimeScale::Year => Scale::Years,
    }
}

/// The step of the dashboard's query, as its requests name it (see `unit_of_scale`).
pub fn request_unit(scale: Scale) -> (u: PrometheusTimeScale)
    ensures
        u == unit_of_scale(scale),
        scale_of_unit(u) == scale,
{
    match scale {
        Scale::Minutes => PrometheusTimeScale::Minute,
        Scale::Hours => PrometheusTimeScale::Hour,
        Scale::Days => PrometheusTimeScale::Day,
        Scale::Weeks => PrometheusTimeScale::Week,
        Scale::Years => PrometheusTimeScale::Year,
    }
}

/// The step a request names, as its range is measured (see `scale_of_unit`).
pub fn series_scale(unit: PrometheusTimeScale) -> (s: Scale)
    ensures
        s == scale_of_unit(unit),
        unit_of_scale(s) == unit,
{
    match unit {
        PrometheusTimeScale::Minute => Scale::Minutes,
        PrometheusTimeScale::Hour => Scale::Hours,
        PrometheusTimeScale::Day => Scale::Days,
        PrometheusTimeScale::Week => Scale::Weeks,
        PrometheusTimeScale::Year => Scale::Years,
    }
}

} // verus!
