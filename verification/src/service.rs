//! The registry of the ICAP services that a server offers.

use vstd::prelude::*;
use std::collections::HashMap;
use crate::error::IcapError;
use crate::protocol::common::{IcapMethod, IcapService};
use crate::keyed::{last_value, without_key, lemma_without_key, lemma_put_key};
use crate::text::str_eq;

verus! {

/// A service as a value of the model.
pub ghost struct ServiceView {
    pub name: Seq<char>,
    pub description: Seq<char>,
    pub methods: Seq<IcapMethod>,
    pub options: Map<String, String>,
}

pub open spec fn service_view(s: IcapService) -> ServiceView {
    ServiceView { name: s.name@, description: s.description@, methods: s.methods@, options: s.options@ }
}

/// A copy of a service.
pub fn clone_service(s: &IcapService) -> (r: IcapService)
    ensures
        service_view(r) == service_view(*s),
{
    let methods = s.methods.clone();
    proof {
        assert(methods@ =~= s.methods@);
    }
    IcapService {
        name: s.name.clone(),
        description: s.description.clone(),
        methods,
        options: s.options.clone(),
    }
}

/// The registered services by name.
#[derive(Debug)]
pub struct ServiceRegistry {
    services: Vec<(String, IcapService)>,
}

impl ServiceRegistry {
    /// The registered services, in order of registration, one per name.
    pub closed spec fn entries(&self) -> Seq<(Seq<char>, ServiceView)> {
        self.services@.map_values(|e: (String, IcapService)| (e.0@, service_view(e.1)))
    }

    /// The service registered under `name`, if any.
    pub open spec fn service(&self, name: Seq<char>) -> Option<ServiceView> {
        last_value(self.entries(), name)
    }

    /// A registry without services.
    pub fn new() -> (r: Self)
        ensures
            r.entries() == Seq::<(Seq<char>, ServiceView)>::empty(),
    {
        let r = ServiceRegistry { services: Vec::new() };
        proof {
            assert(r.entries() =~= Seq::<(Seq<char>, ServiceView)>::empty());
        }
        r
    }

    fn drop_name(&mut self, name: &str)
        ensures
            final(self).entries() == without_key(old(self).entries(), name@),
    {
        let mut kept: Vec<(String, IcapService)> = Vec::new();
        let ghost all = old(self).entries();
        let mut old_services: Vec<(String, IcapService)> = Vec::new();
        std::mem::swap(&mut old_services, &mut self.services);
        let mut i: usize = 0;
        let n = old_services.len();
        let ghost src = old_services@;
        proof {
            assert(src.map_values(|e: (String, IcapService)| (e.0@, service_view(e.1))) == all);
        }
        while old_services.len() > 0
            invariant
                i + old_services@.len() == src.len(),
                src.len() == n,
                old_services@ == src.subrange(i as int, src.len() as int),
                all == src.map_values(|e: (String, IcapService)| (e.0@, service_view(e.1))),
                kept@.map_values(|e: (String, IcapService)| (e.0@, service_view(e.1))) == without_key(all.subrange(0, i as int), name@),
            decreases old_services@.len(),
        {
            let e = old_services.remove(0);
            proof {
                assert(all.subrange(0, i + 1).drop_last() =~= all.subrange(0, i as int));
                assert(e == src[i as int]);
                assert(all[i as int] == (e.0@, service_view(e.1)));
                assert(old_services@ =~= src.subrange(i + 1, src.len() as int));
            }
            if !str_eq(e.0.as_str(), name) {
                let ghost k0 = kept@;
                let ghost ev = (e.0@, service_view(e.1));
                kept.push(e);
                proof {
                    assert(kept@.map_values(|e: (String, IcapService)| (e.0@, service_view(e.1))) =~= k0.map_values(
                        |e: (String, IcapService)| (e.0@, service_view(e.1)),
                    ).push(ev));
                }
            }
            i = i + 1;
        }
        proof {
            assert(all.subrange(0, all.len() as int) =~= all);
        }
        self.services = kept;
    }

    /// Registers `service` under `name`, in place of any service of that name.
    pub fn register_service(&mut self, name: String, service: IcapService) -> (r: Result<(), IcapError>)
        ensures
            r is Ok,
            final(self).entries() == without_key(old(self).entries(), name@).push((name@, service_view(service))),
            final(self).service(name@) == Some(service_view(service)),
            forall|n: Seq<char>| n != name@ ==> final(self).service(n) == old(self).service(n),
    {
        self.drop_name(name.as_str());
        let ghost mid = self.entries();
        let ghost nv = (name@, service_view(service));
        self.services.push((name, service));
        proof {
            assert(self.entries() =~= mid.push(nv));
            lemma_put_key(old(self).entries(), nv.0, nv.1, nv.0);
            assert forall|n: Seq<char>| n != nv.0 implies final(self).service(n) == old(self).service(n) by {
                lemma_put_key(old(self).entries(), nv.0, nv.1, n);
            }
        }
        Ok(())
    }

    /// A copy of the service registered under `name`, if any.
    pub fn get_service(&self, name: &str) -> (r: Option<IcapService>)
        ensures
            match self.service(name@) {
                Some(v) => r matches Some(s) && service_view(s) == v,
                None => r is None,
            },
    {
        let mut i = self.services.len();
        let ghost all = self.entries();
        proof {
            assert(all.subrange(0, i as int) =~= all);
        }
        while i > 0
            invariant
                i <= self.services@.len(),
                all == self.entries(),
                last_value(all, name@) == last_value(all.subrange(0, i as int), name@),
            decreases i,
        {
            proof {
                assert(all.subrange(0, i as int).drop_last() =~= all.subrange(0, i - 1));
            }
            let e = &self.services[i - 1];
            if str_eq(e.0.as_str(), name) {
                return Some(clone_service(&e.1));
            }
            i = i - 1;
        }
        None
    }

    /// Copies of the registered services, in order of registration.
    pub fn list_services(&self) -> (r: Vec<IcapService>)
        ensures
            r@.map_values(|s: IcapService| service_view(s)) == self.entries().map_values(|e: (Seq<char>, ServiceView)| e.1),
    {
        let mut out: Vec<IcapService> = Vec::new();
        let mut i: usize = 0;
        while i < self.services.len()
            invariant
                i <= self.services@.len(),
                out@.map_values(|s: IcapService| service_view(s)) == self.entries().subrange(0, i as int).map_values(
                    |e: (Seq<char>, ServiceView)| e.1,
                ),
            decreases self.services@.len() - i,
        {
            let ghost o0 = out@;
            let c = clone_service(&self.services[i].1);
            let ghost cv = service_view(c);
            out.push(c);
            proof {
                assert(self.entries()[i as int].1 == service_view(self.services@[i as int].1));
                assert(out@.map_values(|s: IcapService| service_view(s)) =~= o0.map_values(|s: IcapService| service_view(s)).push(cv));
                assert(self.entries().subrange(0, i + 1).map_values(|e: (Seq<char>, ServiceView)| e.1) =~= self.entries().subrange(
                    0,
                    i as int,
                ).map_values(|e: (Seq<char>, ServiceView)| e.1).push(self.entries()[i as int].1));
            }
            i = i + 1;
        }
        proof {
            assert(self.entries().subrange(0, self.services@.len() as int) =~= self.entries());
        }
        out
    }

    /// Removes the service registered under `name` and hands it back, if any.
    pub fn unregister_service(&mut self, name: &str) -> (r: Option<IcapService>)
        ensures
            final(self).entries() == without_key(old(self).entries(), name@),
            final(self).service(name@) is None,
            forall|n: Seq<char>| n != name@ ==> final(self).service(n) == old(self).service(n),
            match old(self).service(name@) {
                Some(v) => r matches Some(s) && service_view(s) == v,
                None => r is None,
            },
    {
        let found = self.get_service(name);
        self.drop_name(name);
        proof {
            lemma_without_key(old(self).entries(), name@, name@);
            assert forall|n: Seq<char>| n != name@ implies final(self).service(n) == old(self).service(n) by {
                lemma_without_key(old(self).entries(), name@, n);
            }
        }
        found
    }
}

impl Default for ServiceRegistry {
    fn default() -> (r: Self)
        ensures
            r.entries() == Seq::<(Seq<char>, ServiceView)>::empty(),
    {
        Self::new()
    }
}

/// The service that serves one method: its name, a description, that one
/// method and no options.
pub open spec fn default_service(name: Seq<char>, description: Seq<char>, m: IcapMethod) -> ServiceView {
    ServiceView { name, description, methods: seq![m], options: Map::empty() }
}

fn one_method_service(name: &str, description: &str, m: IcapMethod) -> (r: IcapService)
    ensures
        service_view(r) == default_service(name@, description@, m),
{
    let mut methods: Vec<IcapMethod> = Vec::new();
    methods.push(m);
    proof {
        assert(methods@ =~= seq![m]);
    }
    IcapService {
        name: String::from_str(name),
        description: String::from_str(description),
        methods,
        options: HashMap::new(),
    }
}

/// Keeps the registry of the server's services.
#[derive(Debug)]
pub struct ServiceManager {
    registry: ServiceRegistry,
}

impl ServiceManager {
    /// The registered services.
    pub closed spec fn entries(&self) -> Seq<(Seq<char>, ServiceView)> {
        self.registry.entries()
    }

    /// A manager with an empty registry.
    pub fn new() -> (r: Self)
        ensures
            r.entries() == Seq::<(Seq<char>, ServiceView)>::empty(),
    {
        ServiceManager { registry: ServiceRegistry::new() }
    }

    /// Registers the OPTIONS, REQMOD and RESPMOD services, under the names
    /// `options`, `reqmod` and `respmod`.
    pub fn initialize_default_services(&mut self) -> (r: Result<(), IcapError>)
        ensures
            r is Ok,
            final(self).entries() == without_key(
                without_key(
                    without_key(old(self).entries(), "options"@).push(
                        ("options"@, default_service("options"@, "ICAP OPTIONS service"@, IcapMethod::Options)),
                    ),
                    "reqmod"@,
                ).push(("reqmod"@, default_service("reqmod"@, "ICAP REQMOD service"@, IcapMethod::Reqmod))),
                "respmod"@,
            ).push(("respmod"@, default_service("respmod"@, "ICAP RESPMOD service"@, IcapMethod::Respmod))),
    {
        let options_service = one_method_service("options", "ICAP OPTIONS service", IcapMethod::Options);
        let r1 = self.registry.register_service(String::from_str("options"), options_service);
        if let Err(e) = r1 {
            return Err(e);
        }
        let reqmod_service = one_method_service("reqmod", "ICAP REQMOD service", IcapMethod::Reqmod);
        let r2 = self.registry.register_service(String::from_str("reqmod"), reqmod_service);
        if let Err(e) = r2 {
            return Err(e);
        }
        let respmod_service = one_method_service("respmod", "ICAP RESPMOD service", IcapMethod::Respmod);
        let r3 = self.registry.register_service(String::from_str("respmod"), respmod_service);
        if let Err(e) = r3 {
            return Err(e);
        }
        Ok(())
    }

    /// The registry.
    pub fn registry(&self) -> (r: &ServiceRegistry)
        ensures
            r.entries() == self.entries(),
    {
        &self.registry
    }
}

impl Default for ServiceManager {
    fn default() -> (r: Self)
        ensures
            r.entries() == Seq::<(Seq<char>, ServiceView)>::empty(),
    {
        Self::new()
    }
}

} // verus!
