//! The document model: a collection of requests and named environments, as
//! the parser builds it and the rest of the application reads it.

use vstd::prelude::*;

use crate::dict::Dict;

verus! {

/// The method a request uses to call the API.
#[derive(Debug, Clone, Copy, PartialEq, Eq, Structural)]
pub enum HttpMethod {
    Get,
    Post,
    Patch,
    Put,
    Delete,
    Options,
}

impl Default for HttpMethod {
    /// The default method.
    fn default() -> (r: Self)
        ensures
            r == HttpMethod::Get,
    {
        HttpMethod::Get
    }
}

impl HttpMethod {
    /// The method's name on the wire.
    pub open spec fn spec_str(&self) -> Seq<char> {
        match self {
            HttpMethod::Get => "GET"@,
            HttpMethod::Post => "POST"@,
            HttpMethod::Put => "PUT"@,
            HttpMethod::Patch => "PATCH"@,
            HttpMethod::Delete => "DELETE"@,
            HttpMethod::Options => "OPTIONS"@,
        }
    }

    /// The method's name on the wire.
    pub fn to_str(&self) -> (r: &str)
        ensures
            r@ == self.spec_str(),
    {
        match self {
            HttpMethod::Get => "GET",
            HttpMethod::Post => "POST",
            HttpMethod::Put => "PUT",
            HttpMethod::Patch => "PATCH",
            HttpMethod::Delete => "DELETE",
            HttpMethod::Options => "OPTIONS",
        }
    }
}

/// The kind of body a request sends, matching the recognized sub-block-type
/// qualifiers of a body block.
#[derive(Debug, Clone, Copy, PartialEq, Eq, Structural)]
pub enum HttpBody {
    Json,
    Text,
    FormUrlEncoded,
    MultipartForm,
}

/// Spec-level shadow of a request.
#[verifier::ext_equal]
pub struct RequestView {
    pub name: Seq<char>,
    pub method: HttpMethod,
    pub url: Seq<char>,
    pub body: Option<Seq<char>>,
    pub body_type: Option<HttpBody>,
    pub headers: Map<Seq<char>, Seq<char>>,
}

/// A single route stored in a collection: the method, url, headers and body
/// the request would use.
#[derive(Debug, Clone)]
pub struct Request {
    name: String,
    method: HttpMethod,
    url: String,
    body: Option<String>,
    body_type: Option<HttpBody>,
    headers: Dict<String>,
}

impl View for Request {
    type V = RequestView;

    closed spec fn view(&self) -> RequestView {
        RequestView {
            name: self.name@,
            method: self.method,
            url: self.url@,
            body: match self.body {
                Some(b) => Some(b@),
                None => None,
            },
            body_type: self.body_type,
            headers: self.headers@,
        }
    }
}

impl Request {
    /// Well-formed: the header dictionary has unique keys.
    pub closed spec fn wf(&self) -> bool {
        self.headers.wf()
    }

    /// A request from its parts.
    pub fn new(
        name: String,
        method: HttpMethod,
        url: String,
        body: Option<String>,
        body_type: Option<HttpBody>,
        headers: Dict<String>,
    ) -> (r: Request)
        requires
            headers.wf(),
        ensures
            r.wf(),
            r@.name == name@,
            r@.method == method,
            r@.url == url@,
            r@.body == match body {
                Some(b) => Some(b@),
                None => None::<Seq<char>>,
            },
            r@.body_type == body_type,
            r@.headers == headers@,
    {
        Request { name, method, url, body, body_type, headers }
    }

    /// Gets a clone of the name of the request.
    pub fn get_name(&self) -> (r: String)
        ensures
            r@ == self@.name,
    {
        self.name.clone()
    }

    /// Gets the http method of the request.
    pub fn get_method(&self) -> (r: HttpMethod)
        ensures
            r == self@.method,
    {
        self.method
    }

    /// Gets a clone of the url of the request.
    pub fn get_url(&self) -> (r: String)
        ensures
            r@ == self@.url,
    {
        self.url.clone()
    }
}

/// Spec-level shadow of a collection.
#[verifier::ext_equal]
pub struct CollectionView {
    pub identifier: Seq<char>,
    pub name: Seq<char>,
    pub requests: Seq<RequestView>,
    pub enable_environment: bool,
    pub active_environment: Seq<char>,
    pub environments: Map<Seq<char>, Map<Seq<char>, Seq<char>>>,
}

/// A collection of requests together with its named environments, the name of
/// the active environment (empty if none) and its activation flag.
#[derive(Debug, Clone)]
pub struct Collection {
    identifier: String,
    name: String,
    requests: Vec<Request>,
    enable_environment: bool,
    active_environment: String,
    environments: Dict<Dict<String>>,
}

impl View for Collection {
    type V = CollectionView;

    closed spec fn view(&self) -> CollectionView {
        CollectionView {
            identifier: self.identifier@,
            name: self.name@,
            requests: self.requests@.map_values(|r: Request| r@),
            enable_environment: self.enable_environment,
            active_environment: self.active_environment@,
            environments: self.environments@,
        }
    }
}

impl Default for Collection {
    /// An empty, untitled collection with no environments and no active
    /// environment.
    fn default() -> (c: Self)
        ensures
            c.wf(),
            c@.identifier == Seq::<char>::empty(),
            c@.name == "Untitled Collection"@,
            c@.requests == Seq::<RequestView>::empty(),
            !c@.enable_environment,
            c@.active_environment == Seq::<char>::empty(),
            c@.environments == Map::<Seq<char>, Map<Seq<char>, Seq<char>>>::empty(),
    {
        let c = Collection {
            identifier: String::new(),
            name: "Untitled Collection".to_owned(),
            requests: Vec::new(),
            enable_environment: false,
            active_environment: String::new(),
            environments: Dict::new_table(),
        };
        proof {
            assert(c@.requests =~= Seq::<RequestView>::empty());
        }
        c
    }
}

impl Collection {
    /// Well-formed: the environment table and every request are well-formed.
    pub closed spec fn wf(&self) -> bool {
        &&& self.environments.deep_wf()
        &&& forall|i: int| 0 <= i < self.requests@.len() ==> (#[trigger] self.requests@[i]).wf()
    }

    /// Appends a request to the collection.
    pub fn add_request(&mut self, route: Request)
        requires
            old(self).wf(),
            route.wf(),
        ensures
            final(self).wf(),
            final(self)@ == (CollectionView {
                requests: old(self)@.requests.push(route@),
                ..old(self)@
            }),
    {
        let ghost rv = route@;
        self.requests.push(route);
        proof {
            assert(self.requests@.map_values(|r: Request| r@) =~= old(
                self,
            )@.requests.push(rv));
        }
    }

    /// The number of requests in the collection.
    pub fn get_request_count(&self) -> (r: usize)
        ensures
            r == self@.requests.len(),
    {
        self.requests.len()
    }

    /// Whether the collection holds no request.
    pub fn is_empty(&self) -> (r: bool)
        ensures
            r == (self@.requests.len() == 0),
    {
        self.requests.is_empty()
    }

    /// Sets the collection's name.
    pub fn set_name(&mut self, name: String)
        requires
            old(self).wf(),
        ensures
            final(self).wf(),
            final(self)@ == (CollectionView { name: name@, ..old(self)@ }),
    {
        self.name = name;
    }

    /// Gets a clone of the collection's name.
    pub fn name(&self) -> (r: String)
        ensures
            r@ == self@.name,
    {
        self.name.clone()
    }

    /// Sets the collection's stable identifier.
    pub fn set_identifier(&mut self, identifier: String)
        requires
            old(self).wf(),
        ensures
            final(self).wf(),
            final(self)@ == (CollectionView { identifier: identifier@, ..old(self)@ }),
    {
        self.identifier = identifier;
    }

    /// Gets a clone of the collection's stable identifier.
    pub fn identifier(&self) -> (r: String)
        ensures
            r@ == self@.identifier,
    {
        self.identifier.clone()
    }

    /// Adds an environment under a name, with no entries yet; a name already
    /// present starts over empty.
    pub fn new_environment(&mut self, environment_name: String)
        requires
            old(self).wf(),
        ensures
            final(self).wf(),
            final(self)@ == (CollectionView {
                environments: old(self)@.environments.insert(
                    environment_name@,
                    Map::<Seq<char>, Seq<char>>::empty(),
                ),
                ..old(self)@
            }),
    {
        self.environments.insert_dict(environment_name, Dict::new());
    }

    /// Selects the environment the collection considers active.
    pub fn set_active_environment(&mut self, environment_name: String)
        requires
            old(self).wf(),
        ensures
            final(self).wf(),
            final(self)@ == (CollectionView {
                active_environment: environment_name@,
                ..old(self)@
            }),
    {
        self.active_environment = environment_name;
    }

    /// Adds a key/value pair to the active environment; with no active
    /// environment in the table, the collection is unchanged.
    pub fn add_environment_entry(&mut self, key: String, value: String)
        requires
            old(self).wf(),
        ensures
            final(self).wf(),
            old(self)@.environments.contains_key(old(self)@.active_environment) ==> final(self)@
                == (CollectionView {
                environments: old(self)@.environments.insert(
                    old(self)@.active_environment,
                    old(self)@.environments[old(self)@.active_environment].insert(key@, value@),
                ),
                ..old(self)@
            }),
            !old(self)@.environments.contains_key(old(self)@.active_environment) ==> final(self)@
                == old(self)@,
    {
        let name = self.active_environment.clone();
        self.environments.insert_entry(&name, key, value);
    }

    /// Adds a key/value pair to the named environment; a name the table does
    /// not hold leaves the collection unchanged.
    pub fn insert_environment_entry(&mut self, name: &String, key: String, value: String)
        requires
            old(self).wf(),
        ensures
            final(self).wf(),
            old(self)@.environments.contains_key(name@) ==> final(self)@ == (CollectionView {
                environments: old(self)@.environments.insert(
                    name@,
                    old(self)@.environments[name@].insert(key@, value@),
                ),
                ..old(self)@
            }),
            !old(self)@.environments.contains_key(name@) ==> final(self)@ == old(self)@,
    {
        self.environments.insert_entry(name, key, value);
    }

    /// The entries of the active environment, if the table holds it.
    pub fn get_active_environment(&self) -> (r: Option<&Dict<String>>)
        requires
            self.wf(),
        ensures
            match r {
                Some(d) => self@.environments.contains_key(self@.active_environment) && d@
                    == self@.environments[self@.active_environment],
                None => !self@.environments.contains_key(self@.active_environment),
            },
    {
        proof {
            self.environments.lemma_deep_wf();
        }
        self.environments.get(&self.active_environment)
    }

    /// Marks the active environment as enabled.
    pub fn enable_active_environment(&mut self)
        requires
            old(self).wf(),
        ensures
            final(self).wf(),
            final(self)@ == (CollectionView { enable_environment: true, ..old(self)@ }),
    {
        self.enable_environment = true;
    }

    /// Marks the active environment as disabled.
    pub fn disable_active_environment(&mut self)
        requires
            old(self).wf(),
        ensures
            final(self).wf(),
            final(self)@ == (CollectionView { enable_environment: false, ..old(self)@ }),
    {
        self.enable_environment = false;
    }

    /// Whether the collection's activation flag is set.
    pub fn environment_enabled(&self) -> (r: bool)
        ensures
            r == self@.enable_environment,
    {
        self.enable_environment
    }

    /// Gets a clone of the active environment's name.
    pub fn active_environment_name(&self) -> (r: String)
        ensures
            r@ == self@.active_environment,
    {
        self.active_environment.clone()
    }

    /// The number of environments in the table.
    pub fn environment_count(&self) -> (r: usize)
        requires
            self.wf(),
        ensures
            r == self@.environments.dom().len(),
    {
        proof {
            self.environments.lemma_deep_wf();
        }
        self.environments.len()
    }

    /// The names of the environments, each exactly once.
    pub fn environment_names(&self) -> (r: Vec<String>)
        requires
            self.wf(),
        ensures
            r@.len() == self@.environments.dom().len(),
            forall|i: int|
                0 <= i < r@.len() ==> self@.environments.contains_key((#[trigger] r@[i])@),
            forall|i: int, j: int| 0 <= i < j < r@.len() ==> (#[trigger] r@[i])@ != (
            #[trigger] r@[j])@,
    {
        proof {
            self.environments.lemma_deep_wf();
        }
        self.environments.keys()
    }

    /// The entries of the named environment, if the table holds it.
    pub fn get_environment(&self, name: &String) -> (r: Option<&Dict<String>>)
        requires
            self.wf(),
        ensures
            match r {
                Some(d) => self@.environments.contains_key(name@) && d@ == self@.environments[name@],
                None => !self@.environments.contains_key(name@),
            },
    {
        proof {
            self.environments.lemma_deep_wf();
        }
        self.environments.get(name)
    }

    /// The requests of the collection, in order.
    pub fn iter(&self) -> (r: &Vec<Request>)
        ensures
            r@.map_values(|q: Request| q@) == self@.requests,
    {
        &self.requests
    }
}

} // verus!
