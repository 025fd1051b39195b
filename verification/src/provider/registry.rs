//! The cities and their data sources.
use crate::models::{City, CityModel};
use crate::seqs::{first_where, lemma_first_where};
use crate::text::{copy, same};
use vstd::prelude::*;

verus! {

/// The id of the simulated source.
pub const DEBUG_SERVICE_ID: &'static str = "debug_beijing";

/// A city in the table of a source.
#[derive(Debug)]
pub struct CityEntry {
    /// How the source calls the city.
    pub id: String,
    pub city: City,
}

/// What a [`CityEntry`] holds.
#[verifier::ext_equal]
pub struct CityEntryModel {
    pub id: Seq<char>,
    pub city: CityModel,
}

impl View for CityEntry {
    type V = CityEntryModel;

    open spec fn view(&self) -> CityEntryModel {
        CityEntryModel {
            id: self.id@,
            city: self.city@,
        }
    }
}

impl CityEntry {
    /// What a list of [`CityEntry`] holds.
    pub open spec fn models(list: Seq<CityEntry>) -> Seq<CityEntryModel> {
        list.map_values(|x: CityEntry| x@)
    }
}

impl Clone for CityEntry {
    fn clone(&self) -> (r: Self)
        ensures
            r@ == self@,
    {
        let r = CityEntry {
            id: self.id.clone(),
            city: self.city.clone(),
        };
        r
    }
}

/// A source for a city.
#[derive(Debug)]
pub struct ServiceEntry {
    pub id: String,
    pub city: City,
    /// The name of the source.
    pub provider: String,
}

/// What a [`ServiceEntry`] holds.
#[verifier::ext_equal]
pub struct ServiceEntryModel {
    pub id: Seq<char>,
    pub city: CityModel,
    pub provider: Seq<char>,
}

impl View for ServiceEntry {
    type V = ServiceEntryModel;

    open spec fn view(&self) -> ServiceEntryModel {
        ServiceEntryModel {
            id: self.id@,
            city: self.city@,
            provider: self.provider@,
        }
    }
}

impl ServiceEntry {
    /// What a list of [`ServiceEntry`] holds.
    pub open spec fn models(list: Seq<ServiceEntry>) -> Seq<ServiceEntryModel> {
        list.map_values(|x: ServiceEntry| x@)
    }
}

impl Clone for ServiceEntry {
    fn clone(&self) -> (r: Self)
        ensures
            r@ == self@,
    {
        let r = ServiceEntry {
            id: self.id.clone(),
            city: self.city.clone(),
            provider: self.provider.clone(),
        };
        r
    }
}

/// The cities of a source as services.
pub open spec fn services_of(cities: Seq<CityEntryModel>, provider: Seq<char>) -> Seq<ServiceEntryModel> {
    cities.map_values(|c: CityEntryModel| ServiceEntryModel { id: c.id, city: c.city, provider: provider })
}

/// The simulated source.
pub open spec fn debug_service() -> ServiceEntryModel {
    ServiceEntryModel {
        id: DEBUG_SERVICE_ID@,
        city: CityModel { name: "北京"@, province: "北京"@ },
        provider: "Debug"@,
    }
}

/// Every source for every city: 掌上公交, then 车来了, then the simulated one where it is wanted.
pub open spec fn all_services(mygolbs: Seq<CityEntryModel>, chelaile: Seq<CityEntryModel>, debug: bool) -> Seq<
    ServiceEntryModel,
> {
    let lasting = services_of(mygolbs, "掌上公交"@) + services_of(chelaile, "车来了"@);
    if debug {
        lasting.push(debug_service())
    } else {
        lasting
    }
}

fn push_services(services: &mut Vec<ServiceEntry>, cities: &Vec<CityEntry>, provider: &str)
    ensures
        ServiceEntry::models(final(services)@) == ServiceEntry::models(old(services)@) + services_of(
            CityEntry::models(cities@),
            provider@,
        ),
{
    let ghost start = ServiceEntry::models(services@);
    let ghost wanted = services_of(CityEntry::models(cities@), provider@);
    let mut i: usize = 0;
    assert(start + wanted.take(0) =~= start);
    while i < cities.len()
        invariant
            i <= cities@.len(),
            wanted == services_of(CityEntry::models(cities@), provider@),
            ServiceEntry::models(services@) == start + wanted.take(i as int),
        decreases cities.len() - i,
    {
        let ghost had = ServiceEntry::models(services@);
        let entry = ServiceEntry { id: cities[i].id.clone(), city: cities[i].city.clone(), provider: copy(provider) };
        assert(entry@ == wanted[i as int]);
        services.push(entry);
        assert(ServiceEntry::models(services@) =~= had.push(wanted[i as int]));
        assert(start + wanted.take(i + 1) =~= (start + wanted.take(i as int)).push(wanted[i as int]));
        i += 1;
    }
    assert(wanted.take(i as int) =~= wanted);
}

/// Every source for every city.
pub fn available_services(mygolbs: &Vec<CityEntry>, chelaile: &Vec<CityEntry>, debug: bool) -> (r: Vec<ServiceEntry>)
    ensures
        ServiceEntry::models(r@) == all_services(CityEntry::models(mygolbs@), CityEntry::models(chelaile@), debug),
{
    let mut services: Vec<ServiceEntry> = Vec::new();
    assert(ServiceEntry::models(services@) =~= Seq::<ServiceEntryModel>::empty());
    push_services(&mut services, mygolbs, "掌上公交");
    assert(ServiceEntry::models(services@) =~= services_of(CityEntry::models(mygolbs@), "掌上公交"@));
    push_services(&mut services, chelaile, "车来了");
    if debug {
        let ghost had = ServiceEntry::models(services@);
        let entry = ServiceEntry {
            id: copy(DEBUG_SERVICE_ID),
            city: City { name: copy("北京"), province: copy("北京") },
            provider: copy("Debug"),
        };
        services.push(entry);
        assert(ServiceEntry::models(services@) =~= had.push(entry@));
    }
    services
}

/// Which source serves an id.
#[derive(Debug, Clone, Copy, PartialEq, Eq, Structural)]
pub enum ProviderChoice {
    /// None: every list is empty, and no line is known.
    Nothing,
    /// The simulated one.
    Debug,
    /// 车来了, for the city at this place of its table.
    Chelaile(usize),
    /// 掌上公交, for the city at this place of its table.
    Mygolbs(usize),
}

/// The position of a city by its id.
pub open spec fn city_index(cities: Seq<CityEntryModel>, id: Seq<char>) -> int {
    first_where(cities, |c: CityEntryModel| c.id == id)
}

/// Which source serves an id.
pub open spec fn provider_for(
    service_id: Seq<char>,
    mygolbs: Seq<CityEntryModel>,
    chelaile: Seq<CityEntryModel>,
    debug: bool,
) -> ProviderChoice {
    if service_id.len() == 0 {
        ProviderChoice::Nothing
    } else if debug && service_id == DEBUG_SERVICE_ID@ {
        ProviderChoice::Debug
    } else if city_index(chelaile, service_id) < chelaile.len() {
        ProviderChoice::Chelaile(city_index(chelaile, service_id) as usize)
    } else if city_index(mygolbs, service_id) < mygolbs.len() {
        ProviderChoice::Mygolbs(city_index(mygolbs, service_id) as usize)
    } else {
        ProviderChoice::Nothing
    }
}

fn find_city(cities: &Vec<CityEntry>, id: &str) -> (r: usize)
    ensures
        r == city_index(CityEntry::models(cities@), id@),
        r <= cities@.len(),
{
    let ghost list = CityEntry::models(cities@);
    let ghost p = |c: CityEntryModel| c.id == id@;
    let mut i: usize = 0;
    while i < cities.len()
        invariant
            i <= cities@.len(),
            list == CityEntry::models(cities@),
            p == (|c: CityEntryModel| c.id == id@),
            forall|j: int| 0 <= j < i ==> !p(#[trigger] list[j]),
        decreases cities.len() - i,
    {
        assert(list[i as int] == cities@[i as int]@);
        if same(cities[i].id.as_str(), id) {
            proof {
                lemma_first_where(list, p, i as int);
            }
            return i;
        }
        i += 1;
    }
    proof {
        lemma_first_where(list, p, i as int);
    }
    i
}

/// Which source serves an id.
pub fn create_provider(
    service_id: &str,
    mygolbs: &Vec<CityEntry>,
    chelaile: &Vec<CityEntry>,
    debug: bool,
) -> (r: ProviderChoice)
    ensures
        r == provider_for(service_id@, CityEntry::models(mygolbs@), CityEntry::models(chelaile@), debug),
{
    if service_id.is_empty() {
        return ProviderChoice::Nothing;
    }
    if debug && same(service_id, DEBUG_SERVICE_ID) {
        return ProviderChoice::Debug;
    }
    let i: usize = find_city(chelaile, service_id);
    if i < chelaile.len() {
        return ProviderChoice::Chelaile(i);
    }
    let k: usize = find_city(mygolbs, service_id);
    if k < mygolbs.len() {
        return ProviderChoice::Mygolbs(k);
    }
    ProviderChoice::Nothing
}

/// What a source is asked for that is none: no line is known.
pub fn no_provider_error() -> (r: crate::provider::ProviderError)
    ensures
        r@ == crate::provider::ProviderErrorModel::Server("未选择数据源"@),
{
    crate::provider::ProviderError::Server(copy("未选择数据源"))
}

proof fn lemma_known_service(cities: Seq<CityEntryModel>, provider: Seq<char>, i: int)
    requires
        0 <= i < cities.len(),
    ensures
        city_index(cities, services_of(cities, provider)[i].id) < cities.len(),
{
    let id = services_of(cities, provider)[i].id;
    let p = |c: CityEntryModel| c.id == id;
    crate::seqs::lemma_first_where_is(cities, p);
    assert(p(cities[i]));
}

/// Every service that is on offer is served by a source, unless its id is empty.
pub proof fn law_every_service_is_served(
    mygolbs: Seq<CityEntryModel>,
    chelaile: Seq<CityEntryModel>,
    debug: bool,
    i: int,
)
    requires
        0 <= i < all_services(mygolbs, chelaile, debug).len(),
    ensures
        ({
            let id = all_services(mygolbs, chelaile, debug)[i].id;
            id.len() > 0 ==> provider_for(id, mygolbs, chelaile, debug) != ProviderChoice::Nothing
        }),
{
    let n = mygolbs.len() as int;
    let m = chelaile.len() as int;
    let all = all_services(mygolbs, chelaile, debug);
    if i < n {
        lemma_known_service(mygolbs, "掌上公交"@, i);
        assert(all[i] == services_of(mygolbs, "掌上公交"@)[i]);
    } else if i < n + m {
        lemma_known_service(chelaile, "车来了"@, i - n);
        assert(all[i] == services_of(chelaile, "车来了"@)[i - n]);
    }
}

/// Every city of each source is on the list of services, under its own id and with its source; the simulation is only
/// where it is switched on.
pub proof fn law_every_city_is_listed(mygolbs: Seq<CityEntryModel>, chelaile: Seq<CityEntryModel>, debug: bool, i: int)
    ensures
        ({
            let all = all_services(mygolbs, chelaile, debug);
            &&& 0 <= i < mygolbs.len() ==> all[i].id == mygolbs[i].id && all[i].city == mygolbs[i].city && all[i].provider == "掌上公交"@
            &&& 0 <= i < chelaile.len() ==> all[mygolbs.len() + i].id == chelaile[i].id && all[mygolbs.len() + i].city == chelaile[i].city
                && all[mygolbs.len() + i].provider == "车来了"@
            &&& all.len() == mygolbs.len() + chelaile.len() + if debug {
                1int
            } else {
                0
            }
            &&& debug ==> all.last().provider == "Debug"@
        }),
{
}

/// A service is served by the source that has a city of that id: 车来了 before 掌上公交, and the simulation where it is
/// switched on; none without an id.
pub proof fn law_service_is_served_by_its_source(
    id: Seq<char>,
    mygolbs: Seq<CityEntryModel>,
    chelaile: Seq<CityEntryModel>,
    i: int,
)
    requires
        id.len() > 0,
        mygolbs.len() <= usize::MAX && chelaile.len() <= usize::MAX,
    ensures
        0 <= i < chelaile.len() && chelaile[i].id == id && (forall|k: int| 0 <= k < i ==> (#[trigger] chelaile[k]).id != id)
            ==> provider_for(id, mygolbs, chelaile, false) == ProviderChoice::Chelaile(i as usize),
        (forall|k: int| 0 <= k < chelaile.len() ==> (#[trigger] chelaile[k]).id != id) && 0 <= i < mygolbs.len() && mygolbs[i].id == id && (
        forall|k: int| 0 <= k < i ==> (#[trigger] mygolbs[k]).id != id) ==> provider_for(id, mygolbs, chelaile, false)
            == ProviderChoice::Mygolbs(i as usize),
        provider_for(Seq::empty(), mygolbs, chelaile, true) is Nothing,
        !(provider_for(id, mygolbs, chelaile, false) is Debug),
        provider_for(DEBUG_SERVICE_ID@, mygolbs, chelaile, true) is Debug || DEBUG_SERVICE_ID@.len() == 0,
{
    let p = |c: CityEntryModel| c.id == id;
    if 0 <= i < chelaile.len() && chelaile[i].id == id && (forall|k: int| 0 <= k < i ==> (#[trigger] chelaile[k]).id != id) {
        lemma_first_where(chelaile, p, i);
    }
    if forall|k: int| 0 <= k < chelaile.len() ==> (#[trigger] chelaile[k]).id != id {
        lemma_first_where(chelaile, p, chelaile.len() as int);
        if 0 <= i < mygolbs.len() && mygolbs[i].id == id && (forall|k: int| 0 <= k < i ==> (#[trigger] mygolbs[k]).id != id) {
            lemma_first_where(mygolbs, p, i);
        }
    }
}

} // verus!
