//! OPTIONS (RFC 3507 §4.10): what a server tells about its services.

use vstd::prelude::*;
use vstd::utf8::encode_utf8;
use crate::error::IcapError;
use crate::protocol::common::{IcapMethod, IcapRequest, IcapResponse, IcapService, HttpVersion, join_parts, join_strings, strings_view};
use crate::protocol::fields::{HeaderMap, FieldView, set_field};
use crate::protocol::parser::{ResponseModel, response_view};
use crate::protocol::response_generator::text_bytes;
use crate::service::{ServiceRegistry, ServiceView, service_view};

verus! {

/// Answers OPTIONS requests.
pub trait OptionsHandler {
    /// Handles an OPTIONS request.
    fn handle_options(&self, request: &IcapRequest) -> (r: Result<IcapResponse, IcapError>);
}

/// Some service offers method `m`.
pub open spec fn offers(services: Seq<ServiceView>, m: IcapMethod) -> bool {
    exists|i: int, j: int| 0 <= i < services.len() && 0 <= j < services[i].methods.len() && services[i].methods[j] == m
}

/// The names of the methods that the services offer, each once, in
/// alphabetical order (OPTIONS, REQMOD, RESPMOD).
pub open spec fn offered_names(services: Seq<ServiceView>) -> Seq<Seq<char>> {
    (if offers(services, IcapMethod::Options) { seq!["OPTIONS"@] } else { Seq::empty() })
        + (if offers(services, IcapMethod::Reqmod) { seq!["REQMOD"@] } else { Seq::empty() })
        + (if offers(services, IcapMethod::Respmod) { seq!["RESPMOD"@] } else { Seq::empty() })
}

/// A line `name: description` for each service, in order.
pub open spec fn service_info(services: Seq<ServiceView>) -> Seq<char>
    decreases services.len(),
{
    if services.len() == 0 {
        Seq::empty()
    } else {
        service_info(services.drop_last()) + services.last().name + ": "@ + services.last().description + "\n"@
    }
}

/// The header fields of the answer, with `date` as its Date.
pub open spec fn options_fields(services: Seq<ServiceView>, date: Seq<char>) -> Seq<FieldView> {
    let f0 = set_field(Seq::empty(), "ISTag"@, "\"g3icap-1.0\""@);
    let f1 = set_field(f0, "Methods"@, join_parts(offered_names(services)));
    let f2 = set_field(f1, "Service"@, "G3 ICAP Server"@);
    let f3 = set_field(f2, "Service-ID"@, "g3icap"@);
    let f4 = set_field(f3, "Max-Connections"@, "1000"@);
    let f5 = set_field(f4, "Options-TTL"@, "3600"@);
    let f6 = set_field(f5, "Allow"@, "204"@);
    let f7 = set_field(f6, "Preview"@, "1024"@);
    let f8 = set_field(f7, "Transfer-Preview"@, "*"@);
    let f9 = set_field(f8, "Transfer-Complete"@, "exe,com,bat"@);
    let f10 = set_field(f9, "Date"@, date);
    set_field(f10, "Encapsulated"@, "opt-body=0"@)
}

/// The answer to OPTIONS for `services` at `date`: 200 with the fields, and
/// a line per service in the body.
pub open spec fn options_model(services: Seq<ServiceView>, date: Seq<char>) -> ResponseModel {
    ResponseModel {
        status: 200,
        version: HttpVersion::Http11,
        fields: options_fields(services, date),
        body: encode_utf8(service_info(services)),
        enc: None,
    }
}

/// The views of a list of services.
pub open spec fn services_view(s: Seq<IcapService>) -> Seq<ServiceView> {
    s.map_values(|x: IcapService| service_view(x))
}

fn offers_exec(services: &[IcapService], m: IcapMethod) -> (r: bool)
    ensures
        r == offers(services_view(services@), m),
{
    let ghost sv = services_view(services@);
    let mut i: usize = 0;
    while i < services.len()
        invariant
            i <= services@.len(),
            sv == services_view(services@),
            forall|a: int, b: int| 0 <= a < i && 0 <= b < sv[a].methods.len() ==> sv[a].methods[b] != m,
        decreases services@.len() - i,
    {
        let ms = &services[i].methods;
        let mut j: usize = 0;
        while j < ms.len()
            invariant
                i < services@.len(),
                j <= ms@.len(),
                ms@ == sv[i as int].methods,
                sv == services_view(services@),
                forall|b: int| 0 <= b < j ==> sv[i as int].methods[b] != m,
            decreases ms@.len() - j,
        {
            if ms[j] == m {
                proof {
                    assert(sv[i as int].methods[j as int] == m);
                }
                return true;
            }
            j = j + 1;
        }
        i = i + 1;
    }
    false
}

/// The OPTIONS answer for `services` with `date` as its Date field.
pub fn options_response_for(services: &[IcapService], date: &str) -> (r: IcapResponse)
    ensures
        response_view(r) == options_model(services_view(services@), date@),
{
    let ghost sv = services_view(services@);
    let mut names: Vec<String> = Vec::new();
    if offers_exec(services, IcapMethod::Options) {
        names.push(String::from_str("OPTIONS"));
    }
    if offers_exec(services, IcapMethod::Reqmod) {
        names.push(String::from_str("REQMOD"));
    }
    if offers_exec(services, IcapMethod::Respmod) {
        names.push(String::from_str("RESPMOD"));
    }
    proof {
        assert(strings_view(names@) =~= offered_names(sv));
    }
    let methods = join_strings(&names);
    let mut info = String::new();
    let mut i: usize = 0;
    while i < services.len()
        invariant
            i <= services@.len(),
            sv == services_view(services@),
            info@ == service_info(sv.subrange(0, i as int)),
        decreases services@.len() - i,
    {
        proof {
            assert(sv.subrange(0, i + 1).drop_last() =~= sv.subrange(0, i as int));
        }
        info.append(services[i].name.as_str());
        info.append(": ");
        info.append(services[i].description.as_str());
        info.append("\n");
        i = i + 1;
    }
    proof {
        assert(sv.subrange(0, sv.len() as int) =~= sv);
    }
    let mut headers = HeaderMap::new();
    headers.insert("ISTag", "\"g3icap-1.0\"");
    headers.insert("Methods", methods.as_str());
    headers.insert("Service", "G3 ICAP Server");
    headers.insert("Service-ID", "g3icap");
    headers.insert("Max-Connections", "1000");
    headers.insert("Options-TTL", "3600");
    headers.insert("Allow", "204");
    headers.insert("Preview", "1024");
    headers.insert("Transfer-Preview", "*");
    headers.insert("Transfer-Complete", "exe,com,bat");
    headers.insert("Date", date);
    headers.insert("Encapsulated", "opt-body=0");
    let body = text_bytes(info.as_str());
    IcapResponse { status: 200, version: HttpVersion::Http11, headers, body, encapsulated: None }
}

/// The current time as an HTTP date, from `chrono::Utc::now` formatted with
/// `%a, %d %b %Y %H:%M:%S GMT`.
/// Nothing is claimed of the text: it depends on the clock.
#[verifier::external_body]
fn http_date_now() -> (r: String) {
    chrono::Utc::now().format("%a, %d %b %Y %H:%M:%S GMT").to_string()
}

/// Answers OPTIONS from a registry of services.
#[derive(Debug)]
pub struct DefaultOptionsHandler {
    registry: ServiceRegistry,
}

impl DefaultOptionsHandler {
    /// The registry's services, in order.
    pub closed spec fn services(&self) -> Seq<ServiceView> {
        self.registry.entries().map_values(|e: (Seq<char>, ServiceView)| e.1)
    }

    /// A handler that answers from `registry`.
    pub fn new(registry: ServiceRegistry) -> (r: Self)
        ensures
            r.services() == registry.entries().map_values(|e: (Seq<char>, ServiceView)| e.1),
    {
        DefaultOptionsHandler { registry }
    }
}

impl OptionsHandler for DefaultOptionsHandler {
    /// The registry's services and methods, dated now.
    fn handle_options(&self, request: &IcapRequest) -> (r: Result<IcapResponse, IcapError>)
        ensures
            r matches Ok(x) && exists|date: Seq<char>| response_view(x) == #[trigger] options_model(self.services(), date),
    {
        let services = self.registry.list_services();
        let date = http_date_now();
        let x = options_response_for(services.as_slice(), date.as_str());
        proof {
            assert(services_view(services@) =~= self.services());
            assert(response_view(x) == options_model(self.services(), date@));
        }
        Ok(x)
    }
}

/// Serves OPTIONS requests with a handler.
pub struct OptionsService<H: OptionsHandler> {
    handler: H,
}

impl<H: OptionsHandler> OptionsService<H> {
    /// The handler that answers.
    pub closed spec fn answering_handler(&self) -> H {
        self.handler
    }

    /// A service that answers with `handler`.
    pub fn new(handler: H) -> (r: Self)
        ensures
            r.answering_handler() == handler,
    {
        OptionsService { handler }
    }

    /// Answers an OPTIONS request with the handler; any other method is a
    /// protocol error.
    pub fn process_request(&self, request: &IcapRequest) -> (r: Result<IcapResponse, IcapError>)
        ensures
            request.method != IcapMethod::Options ==> (r matches Err(IcapError::Protocol(m)) && m@
                == "ICAP: Expected OPTIONS method"@),
    {
        if request.method != IcapMethod::Options {
            proof {
                reveal_strlit("ICAP");
                reveal_strlit(": ");
                reveal_strlit("Expected OPTIONS method");
                reveal_strlit("ICAP: Expected OPTIONS method");
                assert("ICAP"@ + ": "@ + "Expected OPTIONS method"@ =~= "ICAP: Expected OPTIONS method"@);
            }
            return Err(IcapError::protocol_error("Expected OPTIONS method", "ICAP"));
        }
        self.handler.handle_options(request)
    }
}

} // verus!
