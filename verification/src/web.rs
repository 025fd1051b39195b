//! The HTTP interface for everybody: the checks of its requests.
//!
//! Every request names a source, and is answered by asking it. What is asked is decided here; the
//! answers come from the sources.
use crate::api::{refusal, refuse, ApiError, ApiErrorModel};
use crate::models::{in_range, on_globe, BusRoute, BusRouteModel, Double, GeoPoint};
use crate::pages::{find_lines, law_lines_are_found_by_name_and_ends, matching_lines};
use crate::provider::registry::{ServiceEntry, ServiceEntryModel};
use crate::provider::ProviderError;
use crate::seqs::{first_where, lemma_filter_has, lemma_filter_next, lemma_first_where, lemma_first_where_is};
use crate::text::{blank, has, is_blank, lowercased, opt_view, same, trim, trimmed};
use vstd::prelude::*;

verus! {

/// How many seconds a source may take to answer.
pub const UPSTREAM_TIMEOUT_SECS: u64 = 20;

/// How long a name in a request may be, in bytes.
pub const MAX_NAME_BYTES: usize = 256;

/// The last place that a stop can have on a line.
pub const MAX_ORDER: u32 = 10_000;

/// The parameters of a request.
#[derive(Debug)]
pub struct Params {
    pub service: String,
    pub q: Option<String>,
    pub lat: Option<Double>,
    pub lng: Option<Double>,
    pub station: Option<String>,
    pub direction: Option<String>,
    pub order: Option<u32>,
}

/// What a [`Params`] holds.
#[verifier::ext_equal]
pub struct ParamsModel {
    pub service: Seq<char>,
    pub q: Option<Seq<char>>,
    pub lat: Option<Double>,
    pub lng: Option<Double>,
    pub station: Option<Seq<char>>,
    pub direction: Option<Seq<char>>,
    pub order: Option<u32>,
}

impl View for Params {
    type V = ParamsModel;

    open spec fn view(&self) -> ParamsModel {
        ParamsModel {
            service: self.service@,
            q: opt_view(self.q),
            lat: self.lat,
            lng: self.lng,
            station: opt_view(self.station),
            direction: opt_view(self.direction),
            order: self.order,
        }
    }
}

/// The source of that id is on offer; the simulated one never is.
pub open spec fn is_offered(id: Seq<char>) -> spec_fn(ServiceEntryModel) -> bool {
    |e: ServiceEntryModel| e.id == id && e.provider != "Debug"@
}

/// The place of a source in the list; the length of the list where it is not on offer.
pub open spec fn offer_index(services: Seq<ServiceEntryModel>, id: Seq<char>) -> int {
    first_where(services, is_offered(id))
}

/// The place of a source in the list.
pub fn find_offer(services: &Vec<ServiceEntry>, id: &str) -> (r: usize)
    ensures
        r == offer_index(ServiceEntry::models(services@), id@),
        r <= services@.len(),
{
    let ghost list = ServiceEntry::models(services@);
    let mut i: usize = 0;
    while i < services.len()
        invariant
            i <= services@.len(),
            list == ServiceEntry::models(services@),
            forall|j: int| 0 <= j < i ==> !is_offered(id@)(#[trigger] list[j]),
        decreases services.len() - i,
    {
        assert(list[i as int] == services@[i as int]@);
        if same(services[i].id.as_str(), id) && !same(services[i].provider.as_str(), "Debug") {
            proof {
                lemma_first_where(list, is_offered(id@), i as int);
            }
            return i;
        }
        i += 1;
    }
    proof {
        lemma_first_where(list, is_offered(id@), i as int);
    }
    i
}

/// Whether the request names a source that is on offer.
pub open spec fn provider_check(p: ParamsModel, services: Seq<ServiceEntryModel>) -> Result<(), ApiErrorModel> {
    if offer_index(services, p.service) < services.len() {
        Ok(())
    } else {
        Err(refusal(400, "请选择有效的城市与数据源"@))
    }
}

/// The position in the request: both numbers, on the globe.
pub open spec fn coords_check(p: ParamsModel) -> Result<GeoPoint, ApiErrorModel> {
    match (p.lat, p.lng) {
        (Some(lat), Some(lng)) => if on_globe(lat, lng) {
            Ok(GeoPoint { lat: lat, lng: lng })
        } else {
            Err(refusal(400, "请传入有效的 WGS84 经纬度"@))
        },
        _ => Err(refusal(400, "请传入有效的 WGS84 经纬度"@)),
    }
}

/// A name that a request has to carry: not blank, and not too long.
pub open spec fn required_check(value: Option<Seq<char>>) -> Result<Seq<char>, ApiErrorModel> {
    match value {
        Some(v) => if !is_blank(v) && vstd::utf8::encode_utf8(v).len() <= MAX_NAME_BYTES {
            Ok(v)
        } else {
            Err(refusal(400, "缺少有效的站点或线路参数"@))
        },
        None => Err(refusal(400, "缺少有效的站点或线路参数"@)),
    }
}

/// The place of a stop in the request.
pub open spec fn order_check(p: ParamsModel) -> Result<u32, ApiErrorModel> {
    match p.order {
        Some(n) => if 0 < n <= MAX_ORDER {
            Ok(n)
        } else {
            Err(refusal(400, "order 必须是有效站序"@))
        },
        None => Err(refusal(400, "order 必须是有效站序"@)),
    }
}

impl Params {
    /// Whether the request names a source that is on offer.
    pub fn provider(&self, services: &Vec<ServiceEntry>) -> (r: Result<(), ApiError>)
        ensures
            crate::api::check_view(r) == provider_check(self@, ServiceEntry::models(services@)),
    {
        assert(ServiceEntry::models(services@).len() == services@.len());
        if find_offer(services, self.service.as_str()) < services.len() {
            Ok(())
        } else {
            Err(refuse(400, "请选择有效的城市与数据源"))
        }
    }

    /// The position in the request, as it was given.
    pub fn coords(&self) -> (r: Result<GeoPoint, ApiError>)
        ensures
            (match r {
                Ok(at) => Ok(at),
                Err(e) => Err(e@),
            }) == coords_check(self@),
    {
        match (self.lat, self.lng) {
            (Some(lat), Some(lng)) => if in_range(lat, lng) {
                Ok(GeoPoint { lat: lat, lng: lng })
            } else {
                Err(refuse(400, "请传入有效的 WGS84 经纬度"))
            },
            _ => Err(refuse(400, "请传入有效的 WGS84 经纬度")),
        }
    }

    fn place(&self) -> (r: Result<u32, ApiError>)
        ensures
            (match r {
                Ok(n) => Ok(n),
                Err(e) => Err(e@),
            }) == order_check(self@),
    {
        match self.order {
            Some(n) => if n > 0 && n <= MAX_ORDER {
                Ok(n)
            } else {
                Err(refuse(400, "order 必须是有效站序"))
            },
            None => Err(refuse(400, "order 必须是有效站序")),
        }
    }
}

/// What a result says of a name.
pub open spec fn name_view(r: Result<String, ApiError>) -> Result<Seq<char>, ApiErrorModel> {
    match r {
        Ok(name) => Ok(name@),
        Err(e) => Err(e@),
    }
}

/// A name that a request has to carry.
pub fn required(value: &Option<String>) -> (r: Result<String, ApiError>)
    ensures
        name_view(r) == required_check(opt_view(*value)),
{
    match value {
        Some(v) => if !blank(v.as_str()) && v.as_str().as_bytes().len() <= MAX_NAME_BYTES {
            Ok(v.clone())
        } else {
            Err(refuse(400, "缺少有效的站点或线路参数"))
        },
        None => Err(refuse(400, "缺少有效的站点或线路参数")),
    }
}

/// What is answered once a source was asked; nothing has come where it took too long.
pub fn upstream<T>(reply: Option<Result<T, ProviderError>>) -> (r: Result<T, ApiError>)
    ensures
        match (reply, r) {
            (Some(Ok(data)), Ok(d)) => d == data,
            (Some(Err(_)), Err(e)) => e@ == refusal(502, "公交数据源暂时不可用，请稍后重试"@),
            (None, Err(e)) => e@ == refusal(504, "公交数据源响应超时，请重试"@),
            _ => false,
        },
{
    match reply {
        Some(Ok(data)) => Ok(data),
        Some(Err(_)) => Err(refuse(502, "公交数据源暂时不可用，请稍后重试")),
        None => Err(refuse(504, "公交数据源响应超时，请重试")),
    }
}

/// The sources on offer.
pub open spec fn offered(services: Seq<ServiceEntryModel>) -> Seq<ServiceEntryModel> {
    services.filter(|e: ServiceEntryModel| e.provider != "Debug"@)
}

/// The sources on offer.
pub fn services(all: &Vec<ServiceEntry>) -> (r: Vec<ServiceEntry>)
    ensures
        ServiceEntry::models(r@) == offered(ServiceEntry::models(all@)),
{
    let ghost list = ServiceEntry::models(all@);
    let ghost p = |e: ServiceEntryModel| e.provider != "Debug"@;
    let mut r: Vec<ServiceEntry> = Vec::new();
    let mut i: usize = 0;
    assert(ServiceEntry::models(r@) =~= list.take(0).filter(p)) by {
        reveal(Seq::filter);
    }
    while i < all.len()
        invariant
            i <= all@.len(),
            list == ServiceEntry::models(all@),
            p == (|e: ServiceEntryModel| e.provider != "Debug"@),
            ServiceEntry::models(r@) == list.take(i as int).filter(p),
        decreases all.len() - i,
    {
        proof {
            lemma_filter_next(list, p, i as int);
        }
        assert(list[i as int] == all@[i as int]@);
        if !same(all[i].provider.as_str(), "Debug") {
            let ghost had = ServiceEntry::models(r@);
            r.push(all[i].clone());
            assert(ServiceEntry::models(r@) =~= had.push(list[i as int]));
        }
        i += 1;
    }
    assert(list.take(i as int) =~= list);
    r
}

/// The lines that a request asks for: those that answer to its keyword, and all of them where it carries
/// none.
pub open spec fn lines_for(lines: Seq<BusRouteModel>, q: Option<Seq<char>>) -> Seq<BusRouteModel> {
    match q {
        Some(q) => if is_blank(q) {
            lines
        } else {
            matching_lines(lines, trim(q))
        },
        None => lines,
    }
}

/// Of the lines of a source those that a request asks for.
pub fn lines(rows: Vec<BusRoute>, q: &Option<String>) -> (r: Vec<BusRoute>)
    ensures
        BusRoute::models(r@) == lines_for(BusRoute::models(rows@), opt_view(*q)),
{
    match q {
        Some(q) => if blank(q.as_str()) {
            rows
        } else {
            find_lines(&rows, trimmed(q.as_str()).as_str())
        },
        None => rows,
    }
}

/// Near which position stops are to be looked for.
pub fn nearby(p: &Params, services: &Vec<ServiceEntry>) -> (r: Result<GeoPoint, ApiError>)
    ensures
        (match r {
            Ok(at) => Ok(at),
            Err(e) => Err(e@),
        }) == match provider_check(p@, ServiceEntry::models(services@)) {
            Ok(_) => coords_check(p@),
            Err(e) => Err(e),
        },
{
    match p.provider(services) {
        Ok(_) => p.coords(),
        Err(e) => Err(e),
    }
}

/// At which stop, and near which position, lines are to be looked for.
pub open spec fn station_check(p: ParamsModel, services: Seq<ServiceEntryModel>) -> Result<(GeoPoint, Seq<char>), ApiErrorModel> {
    match provider_check(p, services) {
        Ok(_) => match coords_check(p) {
            Ok(at) => match required_check(p.station) {
                Ok(name) => Ok((at, name)),
                Err(e) => Err(e),
            },
            Err(e) => Err(e),
        },
        Err(e) => Err(e),
    }
}

/// At which stop, and near which position, lines are to be looked for.
pub fn station_lines(p: &Params, services: &Vec<ServiceEntry>) -> (r: Result<(GeoPoint, String), ApiError>)
    ensures
        (match r {
            Ok((at, name)) => Ok((at, name@)),
            Err(e) => Err(e@),
        }) == station_check(p@, ServiceEntry::models(services@)),
{
    match p.provider(services) {
        Ok(_) => match p.coords() {
            Ok(at) => match required(&p.station) {
                Ok(name) => Ok((at, name)),
                Err(e) => Err(e),
            },
            Err(e) => Err(e),
        },
        Err(e) => Err(e),
    }
}

/// Which line is to be fetched.
pub fn line(p: &Params, services: &Vec<ServiceEntry>) -> (r: Result<String, ApiError>)
    ensures
        name_view(r) == match provider_check(p@, ServiceEntry::models(services@)) {
            Ok(_) => required_check(p@.direction),
            Err(e) => Err(e),
        },
{
    match p.provider(services) {
        Ok(_) => required(&p.direction),
        Err(e) => Err(e),
    }
}

/// For which line, and for which of its stops, live data is to be fetched.
pub open spec fn realtime_check(p: ParamsModel, services: Seq<ServiceEntryModel>) -> Result<(Seq<char>, u32), ApiErrorModel> {
    match provider_check(p, services) {
        Ok(_) => match order_check(p) {
            Ok(order) => match required_check(p.direction) {
                Ok(name) => Ok((name, order)),
                Err(e) => Err(e),
            },
            Err(e) => Err(e),
        },
        Err(e) => Err(e),
    }
}

/// For which line, and for which of its stops, live data is to be fetched.
pub fn realtime(p: &Params, services: &Vec<ServiceEntry>) -> (r: Result<(String, u32), ApiError>)
    ensures
        (match r {
            Ok((name, order)) => Ok((name@, order)),
            Err(e) => Err(e@),
        }) == realtime_check(p@, ServiceEntry::models(services@)),
{
    match p.provider(services) {
        Ok(_) => match p.place() {
            Ok(order) => match required(&p.direction) {
                Ok(name) => Ok((name, order)),
                Err(e) => Err(e),
            },
            Err(e) => Err(e),
        },
        Err(e) => Err(e),
    }
}

/// The simulated source is neither listed nor served.
pub proof fn law_simulation_is_not_offered(services: Seq<ServiceEntryModel>, i: int)
    requires
        0 <= i < offered(services).len(),
    ensures
        offered(services)[i].provider != "Debug"@,
        offer_index(services, offered(services)[i].id) < services.len(),
{
    let p = |e: ServiceEntryModel| e.provider != "Debug"@;
    let e = offered(services)[i];
    services.lemma_filter_pred(p, i);
    assert(services.filter(p).contains(e));
    services.lemma_filter_contains_rev(p, e);
    let k = choose|k: int| 0 <= k < services.len() && #[trigger] services[k] == e;
    crate::seqs::lemma_first_where_is(services, is_offered(e.id));
    assert(is_offered(e.id)(services[k]));
}

// ─── which requests are taken ───

/// A request is taken for a source exactly where it is on offer, and the simulation never is; else it is a bad request.
pub proof fn law_request_names_a_source_on_offer(p: ParamsModel, services: Seq<ServiceEntryModel>)
    ensures
        provider_check(p, services) is Ok <==> exists|k: int|
            0 <= k < services.len() && (#[trigger] services[k]).id == p.service && services[k].provider != "Debug"@,
        provider_check(p, services) matches Err(e) ==> e.status == 400,
{
    let offers = is_offered(p.service);
    lemma_first_where_is(services, offers);
    let at = offer_index(services, p.service);
    if at < services.len() {
        assert(services[at].id == p.service && services[at].provider != "Debug"@);
    } else {
        assert forall|k: int| 0 <= k < services.len() implies !((#[trigger] services[k]).id == p.service && services[k].provider
            != "Debug"@) by {
            assert(!offers(services[k]));
        }
    }
}

/// A position is taken exactly where both of its numbers are there and it lies on the globe, and it is the one that
/// was given; else it is a bad request.
pub proof fn law_request_names_a_place_on_the_globe(p: ParamsModel)
    ensures
        coords_check(p) is Ok <==> p.lat is Some && p.lng is Some && on_globe(p.lat->0, p.lng->0),
        coords_check(p) matches Ok(at) ==> p.lat == Some(at.lat) && p.lng == Some(at.lng),
        coords_check(p) matches Err(e) ==> e.status == 400,
{
}

/// The number of a stop is taken from one to ten thousand, and a name where it is not blank and has at most 256
/// bytes; else it is a bad request.
pub proof fn law_request_names_its_stop_and_line(p: ParamsModel, name: Option<Seq<char>>)
    ensures
        order_check(p) is Ok <==> p.order is Some && 1 <= p.order->0 <= 10_000,
        order_check(p) matches Ok(n) ==> p.order == Some(n),
        order_check(p) matches Err(e) ==> e.status == 400,
        required_check(name) is Ok <==> name is Some && !is_blank(name->0) && vstd::utf8::encode_utf8(name->0).len() <= 256,
        required_check(name) matches Ok(n) ==> name == Some(n),
        required_check(name) matches Err(e) ==> e.status == 400,
{
}

/// A request for live data is taken exactly where its source, its stop and its line are, and asks for that line at
/// that stop; one for the lines at a stop where its source, its place and its stop are.
pub proof fn law_request_asks_for_what_it_names(p: ParamsModel, services: Seq<ServiceEntryModel>)
    ensures
        realtime_check(p, services) is Ok <==> provider_check(p, services) is Ok && order_check(p) is Ok && required_check(p.direction)
            is Ok,
        realtime_check(p, services) matches Ok((line, n)) ==> p.direction == Some(line) && p.order == Some(n),
        realtime_check(p, services) matches Err(e) ==> e.status == 400,
        station_check(p, services) is Ok <==> provider_check(p, services) is Ok && coords_check(p) is Ok && required_check(p.station) is Ok,
        station_check(p, services) matches Ok((at, name)) ==> p.station == Some(name) && p.lat == Some(at.lat) && p.lng == Some(at.lng),
        station_check(p, services) matches Err(e) ==> e.status == 400,
{
}

/// Without a keyword all lines are given, in their order; with one, those that answer to it without the white space
/// around it.
pub proof fn law_lines_are_given_by_keyword(lines: Seq<BusRouteModel>, q: Seq<char>, k: int)
    requires
        0 <= k < lines.len(),
    ensures
        lines_for(lines, None) == lines,
        is_blank(q) ==> lines_for(lines, Some(q)) == lines,
        !is_blank(q) ==> (lines_for(lines, Some(q)).contains(lines[k]) <==> has(lowercased(lines[k].name), lowercased(trim(q))) || has(
            lines[k].endpoints.origin,
            trim(q),
        ) || has(lines[k].endpoints.terminus, trim(q))),
{
    law_lines_are_found_by_name_and_ends(lines, trim(q), k);
}

/// The sources on offer are all but the simulation.
pub proof fn law_all_but_the_simulation_is_offered(services: Seq<ServiceEntryModel>, k: int)
    requires
        0 <= k < services.len(),
    ensures
        offered(services).contains(services[k]) <==> services[k].provider != "Debug"@,
{
    let p = |e: ServiceEntryModel| e.provider != "Debug"@;
    lemma_filter_has(services, p, services[k]);
    assert(services.contains(services[k]));
}

} // verus!
