//! The route table and the way from a request to its response.
//!
//! A server holds static routes, which bind a path to a fixed content, and
//! dynamic routes, which bind a pattern to a handler. A path with a static
//! route is answered with that route's content and no handler is called.
//! Otherwise the dynamic routes are tried in the order in which their
//! patterns were first registered, and the first pattern that matches gives
//! the handler: first match wins, not best match. A path that nothing takes
//! gets the fixed `404` response.
//!
//! Registering a path or a pattern a second time replaces what it is bound
//! to and keeps its place in the order.

use crate::matcher::{match_pairs, match_path, match_route};
use crate::request::{Request, RequestModel};
use crate::response::{file_response, file_response_text, not_found, not_found_text};
use crate::strmap::{Pair, StringMap, distinct_keys, map_of, pair_texts, put};
use vstd::prelude::*;

verus! {

/// A dynamic route: a pattern and the handler that answers for it.
struct Route<H> {
    pattern: String,
    handler: H,
}

/// The route table. `H` is the type of its handlers: a handler is called with
/// the path, the parameters bound by its pattern, the method and the form
/// parameters of the body, and gives the response, framed by itself, as `Ok`
/// or as `Err`.
pub struct Server<H: Fn(&str, StringMap, &str, StringMap) -> Result<String, String>> {
    routes: Vec<Route<H>>,
    static_routes: StringMap,
}

/// How a path is answered.
#[derive(Debug)]
pub enum Resolution {
    /// By the content of the static route of that path.
    Static(String),
    /// By the handler of the dynamic route at `index`, called with `params`.
    Dynamic { index: usize, params: StringMap },
    /// By the fixed `404` response.
    NotFound,
}

/// How a path is answered, as plain values.
pub enum ResolutionModel {
    Static(Seq<char>),
    Dynamic(int, Map<Seq<char>, Seq<char>>),
    NotFound,
}

impl View for Resolution {
    type V = ResolutionModel;

    open spec fn view(&self) -> ResolutionModel {
        match self {
            Resolution::Static(content) => ResolutionModel::Static(content@),
            Resolution::Dynamic { index, params } => ResolutionModel::Dynamic(*index as int, params@),
            Resolution::NotFound => ResolutionModel::NotFound,
        }
    }
}

/// Whether no pattern stands twice in `patterns`.
pub open spec fn distinct_patterns(patterns: Seq<Seq<char>>) -> bool {
    forall|i: int, j: int| 0 <= i < j < patterns.len() ==> patterns[i] != patterns[j]
}

/// The place of the first pattern at or after `from` that matches `path`.
pub open spec fn first_match(patterns: Seq<Seq<char>>, path: Seq<char>, from: int) -> Option<int>
    decreases patterns.len() - from,
{
    if from < 0 || from >= patterns.len() {
        None
    } else if match_path(path, patterns[from]) is Some {
        Some(from)
    } else {
        first_match(patterns, path, from + 1)
    }
}

/// How `path` is answered by a table with the static routes `statics` and
/// the patterns `patterns`.
pub open spec fn resolve(
    statics: Map<Seq<char>, Seq<char>>,
    patterns: Seq<Seq<char>>,
    path: Seq<char>,
) -> ResolutionModel {
    if statics.contains_key(path) {
        ResolutionModel::Static(statics[path])
    } else {
        match first_match(patterns, path, 0) {
            Some(i) => ResolutionModel::Dynamic(i, match_path(path, patterns[i]).unwrap()),
            None => ResolutionModel::NotFound,
        }
    }
}

/// The static routes after the first `n` of `files`, each a file's name and
/// its place, were bound one after the other: the file called `name` is
/// bound to the path `/name`, and its place is the content.
pub open spec fn with_files(statics: Seq<Pair>, files: Seq<Pair>, n: int) -> Seq<Pair>
    decreases n,
{
    if n <= 0 {
        statics
    } else {
        put(with_files(statics, files, n - 1), "/"@ + files[n - 1].0, files[n - 1].1)
    }
}

/// The map of static routes after the first `n` of `files` were bound; see
/// `with_files`.
pub open spec fn files_map(
    statics: Map<Seq<char>, Seq<char>>,
    files: Seq<Pair>,
    n: int,
) -> Map<Seq<char>, Seq<char>>
    decreases n,
{
    if n <= 0 {
        statics
    } else {
        files_map(statics, files, n - 1).insert("/"@ + files[n - 1].0, files[n - 1].1)
    }
}

/// Whether `path` is the path of one of the first `n` of `files`.
pub open spec fn names_file(files: Seq<Pair>, n: int, path: Seq<char>) -> bool {
    exists|i: int| 0 <= i < n && path == "/"@ + (#[trigger] files[i]).0
}

/// Binding files changes the static routes of the files' paths only: every
/// other path is bound as before, or not bound as before.
pub proof fn lemma_files_keep_other_paths(
    statics: Map<Seq<char>, Seq<char>>,
    files: Seq<Pair>,
    n: int,
    path: Seq<char>,
)
    requires
        !names_file(files, n, path),
    ensures
        files_map(statics, files, n).contains_key(path) <==> statics.contains_key(path),
        files_map(statics, files, n)[path] == statics[path],
    decreases n,
{
    if n > 0 {
        assert(!names_file(files, n - 1, path)) by {
            if names_file(files, n - 1, path) {
                let i = choose|i: int| 0 <= i < n - 1 && path == "/"@ + (#[trigger] files[i]).0;
                assert(0 <= i < n && path == "/"@ + files[i].0);
            }
        }
        lemma_files_keep_other_paths(statics, files, n - 1, path);
        assert(path != "/"@ + files[n - 1].0) by {
            if path == "/"@ + files[n - 1].0 {
                assert(0 <= n - 1 < n && path == "/"@ + files[n - 1].0);
            }
        }
    }
}

/// What a handler's result puts on the wire: the text, be it `Ok` or `Err`.
pub open spec fn reply_text(out: Result<String, String>) -> Seq<char> {
    match out {
        Ok(text) => text@,
        Err(text) => text@,
    }
}

/// Whether `handler` can be called with every request.
pub open spec fn accepts_all<H: Fn(&str, StringMap, &str, StringMap) -> Result<String, String>>(
    handler: H,
) -> bool {
    forall|path: &str, params: StringMap, method: &str, form: StringMap| #[trigger]
        call_requires(handler, (path, params, method, form))
}

/// Whether `reply` is what `handler` may put on the wire when it is called
/// with these values.
pub open spec fn handler_gives<H: Fn(&str, StringMap, &str, StringMap) -> Result<String, String>>(
    handler: H,
    path: Seq<char>,
    params: Map<Seq<char>, Seq<char>>,
    method: Seq<char>,
    form: Map<Seq<char>, Seq<char>>,
    reply: Seq<char>,
) -> bool {
    exists|p: &str, bound: StringMap, m: &str, body: StringMap, out: Result<String, String>|
        p@ == path && bound@ == params && m@ == method && body@ == form && #[trigger] call_ensures(
            handler,
            (p, bound, m, body),
            out,
        ) && reply == reply_text(out)
}

/// `first_match` gives the least place at or after `from` whose pattern
/// matches, and `None` exactly when no pattern from there on matches.
pub proof fn lemma_first_match(patterns: Seq<Seq<char>>, path: Seq<char>, from: int)
    requires
        0 <= from,
    ensures
        match first_match(patterns, path, from) {
            Some(i) => from <= i < patterns.len() && match_path(path, patterns[i]) is Some
                && forall|j: int| from <= j < i ==> match_path(path, #[trigger] patterns[j]) is None,
            None => forall|j: int|
                from <= j < patterns.len() ==> match_path(path, #[trigger] patterns[j]) is None,
        },
    decreases patterns.len() - from,
{
    if from < patterns.len() && match_path(path, patterns[from]) is None {
        lemma_first_match(patterns, path, from + 1);
    }
}

/// A path with a static route is answered by that route's content, whatever
/// dynamic routes there are: no handler is chosen for it.
pub proof fn lemma_static_route_wins(
    statics: Map<Seq<char>, Seq<char>>,
    patterns: Seq<Seq<char>>,
    path: Seq<char>,
)
    requires
        statics.contains_key(path),
    ensures
        resolve(statics, patterns, path) == ResolutionModel::Static(statics[path]),
{
}

/// The route that answers a path is the first one, in the order of
/// registration, whose pattern matches it: the path has no static route, the
/// pattern at the chosen place matches and gives the parameters, and no
/// pattern before it matches.
pub proof fn lemma_first_match_wins(
    statics: Map<Seq<char>, Seq<char>>,
    patterns: Seq<Seq<char>>,
    path: Seq<char>,
)
    ensures
        resolve(statics, patterns, path) matches ResolutionModel::Dynamic(i, params) ==> {
            &&& !statics.contains_key(path)
            &&& 0 <= i < patterns.len()
            &&& match_path(path, patterns[i]) == Some(params)
            &&& forall|j: int| 0 <= j < i ==> match_path(path, #[trigger] patterns[j]) is None
        },
{
    lemma_first_match(patterns, path, 0);
}

/// Of two routes whose patterns both match a path, the one registered later
/// never answers it.
pub proof fn lemma_later_match_loses(
    statics: Map<Seq<char>, Seq<char>>,
    patterns: Seq<Seq<char>>,
    path: Seq<char>,
    earlier: int,
    later: int,
)
    requires
        0 <= earlier < later < patterns.len(),
        match_path(path, patterns[earlier]) is Some,
    ensures
        resolve(statics, patterns, path) matches ResolutionModel::Dynamic(i, params) ==> i
            <= earlier,
{
    lemma_first_match(patterns, path, 0);
}

/// A path is answered with `404` exactly when it has no static route and no
/// pattern matches it.
pub proof fn lemma_not_found(
    statics: Map<Seq<char>, Seq<char>>,
    patterns: Seq<Seq<char>>,
    path: Seq<char>,
)
    ensures
        resolve(statics, patterns, path) is NotFound <==> !statics.contains_key(path) && forall|
            j: int,
        | 0 <= j < patterns.len() ==> match_path(path, #[trigger] patterns[j]) is None,
{
    lemma_first_match(patterns, path, 0);
}

impl<H: Fn(&str, StringMap, &str, StringMap) -> Result<String, String>> Server<H> {
    #[verifier::type_invariant]
    spec fn well_formed(self) -> bool {
        &&& distinct_patterns(self.patterns())
        &&& forall|i: int| 0 <= i < self.routes@.len() ==> accepts_all(#[trigger] self.routes@[i].handler)
    }

    /// The patterns of the dynamic routes, in the order of registration.
    pub closed spec fn patterns(&self) -> Seq<Seq<char>> {
        Seq::new(self.routes@.len(), |i: int| self.routes@[i].pattern@)
    }

    /// The handlers of the dynamic routes, each at the place of its pattern.
    pub closed spec fn handlers(&self) -> Seq<H> {
        Seq::new(self.routes@.len(), |i: int| self.routes@[i].handler)
    }

    /// The static routes, path and content, in the order of registration.
    pub closed spec fn statics(&self) -> Seq<Pair> {
        self.static_routes.pairs()
    }

    /// The static routes as a map from path to content.
    pub open spec fn static_map(&self) -> Map<Seq<char>, Seq<char>> {
        map_of(self.statics())
    }

    /// How this server answers `path`.
    pub open spec fn resolution(&self, path: Seq<char>) -> ResolutionModel {
        resolve(self.static_map(), self.patterns(), path)
    }

    /// Whether `response` is what this server may answer to `request`: the
    /// content of the static route; what the handler of the first matching
    /// route gives when called with the path, the bound parameters, the
    /// method and the form parameters; or the `404` response.
    pub open spec fn answers(&self, request: RequestModel, response: Seq<char>) -> bool {
        match self.resolution(request.path) {
            ResolutionModel::Static(content) => response == content,
            ResolutionModel::Dynamic(i, params) => handler_gives(
                self.handlers()[i],
                request.path,
                params,
                request.method,
                request.body_params,
                response,
            ),
            ResolutionModel::NotFound => response == not_found_text(),
        }
    }

    /// A server without routes.
    pub fn new() -> (server: Self)
        ensures
            server.patterns() == Seq::<Seq<char>>::empty(),
            server.handlers() == Seq::<H>::empty(),
            server.statics() == Seq::<Pair>::empty(),
    {
        let server = Server { routes: Vec::new(), static_routes: StringMap::new() };
        assert(server.patterns() =~= Seq::<Seq<char>>::empty());
        assert(server.handlers() =~= Seq::<H>::empty());
        server
    }

    /// Binds the pattern `path` to the handler `func`. A pattern that is
    /// registered already keeps its place and gets the new handler; a new one
    /// goes behind all others.
    pub fn route(&mut self, path: &str, func: H)
        requires
            accepts_all(func),
        ensures
            final(self).statics() == old(self).statics(),
            forall|i: int|
                0 <= i < old(self).patterns().len() && old(self).patterns()[i] == path@ ==> {
                    &&& final(self).patterns() == old(self).patterns()
                    &&& final(self).handlers() == old(self).handlers().update(i, func)
                },
            !old(self).patterns().contains(path@) ==> {
                &&& final(self).patterns() == old(self).patterns().push(path@)
                &&& final(self).handlers() == old(self).handlers().push(func)
            },
    {
        proof {
            use_type_invariant(&*self);
        }
        let pattern = path.to_owned();
        let n: usize = self.routes.len();
        let mut place: usize = 0;
        while place < n && !(self.routes[place].pattern == pattern)
            invariant
                n == self.routes@.len(),
                place <= n,
                pattern@ == path@,
                forall|j: int| 0 <= j < place ==> self.patterns()[j] != path@,
            decreases n - place,
        {
            place += 1;
        }
        let ghost before = self.routes@;
        let ghost old_patterns = self.patterns();
        let ghost old_handlers = self.handlers();
        let mut routes: Vec<Route<H>> = Vec::new();
        core::mem::swap(&mut self.routes, &mut routes);
        if place < n {
            assert(old_patterns[place as int] == path@);
            routes.set(place, Route { pattern, handler: func });
        } else {
            routes.push(Route { pattern, handler: func });
        }
        let ghost patterns = Seq::new(routes@.len(), |i: int| routes@[i].pattern@);
        let ghost handlers = Seq::new(routes@.len(), |i: int| routes@[i].handler);
        proof {
            if place < n {
                assert(patterns =~= old_patterns);
                assert(handlers =~= old_handlers.update(place as int, func));
                assert forall|i: int| 0 <= i < old_patterns.len() && old_patterns[i] == path@ implies i
                    == place by {
                    if i < place {
                        assert(old_patterns[i] != path@);
                    } else if i > place {
                        assert(old_patterns[place as int] != old_patterns[i]);
                    }
                }
            } else {
                assert(patterns =~= old_patterns.push(path@));
                assert(handlers =~= old_handlers.push(func));
                assert forall|i: int| 0 <= i < old_patterns.len() implies old_patterns[i] != path@ by {}
                assert(!old_patterns.contains(path@));
            }
            assert forall|i: int| 0 <= i < routes@.len() implies accepts_all(
                #[trigger] routes@[i].handler,
            ) by {
                if i < n && i != place {
                    assert(routes@[i] == before[i]);
                }
            }
            assert forall|i: int, j: int| 0 <= i < j < patterns.len() implies patterns[i]
                != patterns[j] by {
                if j < old_patterns.len() {
                    assert(old_patterns[i] != old_patterns[j]);
                } else {
                    assert(old_patterns[i] != path@);
                }
            }
        }
        self.routes = routes;
        assert(self.patterns() =~= patterns);
        assert(self.handlers() =~= handlers);
    }

    /// Binds the path `path` to the content `content`. A path that is
    /// registered already keeps its place and gets the new content; a new one
    /// goes behind all others.
    pub fn static_route(&mut self, path: &str, content: &str)
        ensures
            final(self).statics() == put(old(self).statics(), path@, content@),
            final(self).static_map() == old(self).static_map().insert(path@, content@),
            final(self).patterns() == old(self).patterns(),
            final(self).handlers() == old(self).handlers(),
    {
        proof {
            use_type_invariant(&*self);
        }
        let mut statics = StringMap::new();
        core::mem::swap(&mut self.static_routes, &mut statics);
        statics.insert(path.to_owned(), content.to_owned());
        self.static_routes = statics;
    }

    /// Binds the file called `file_name`, which lies at `file_path`, to the
    /// path `/file_name`: the content of the static route is the file's
    /// place.
    pub fn static_file_route(&mut self, file_name: &str, file_path: &str)
        ensures
            final(self).statics() == put(old(self).statics(), "/"@ + file_name@, file_path@),
            final(self).static_map() == old(self).static_map().insert("/"@ + file_name@, file_path@),
            final(self).patterns() == old(self).patterns(),
            final(self).handlers() == old(self).handlers(),
    {
        let mut path = "/".to_owned();
        path.append(file_name);
        self.static_route(path.as_str(), file_path);
    }

    /// Binds each of `files`, a file's name and its place, as
    /// `static_file_route` does, in their order. The static routes of all
    /// other paths, and the dynamic routes, stay as they are.
    pub fn load_static_files(&mut self, files: &Vec<(String, String)>)
        ensures
            final(self).statics() == with_files(
                old(self).statics(),
                pair_texts(files@),
                files@.len() as int,
            ),
            final(self).static_map() == files_map(
                old(self).static_map(),
                pair_texts(files@),
                files@.len() as int,
            ),
            forall|path: Seq<char>|
                !names_file(pair_texts(files@), files@.len() as int, path) ==> {
                    &&& #[trigger] final(self).static_map().contains_key(path) <==> old(
                        self,
                    ).static_map().contains_key(path)
                    &&& final(self).static_map()[path] == old(self).static_map()[path]
                },
            final(self).patterns() == old(self).patterns(),
            final(self).handlers() == old(self).handlers(),
    {
        let n: usize = files.len();
        let mut i: usize = 0;
        while i < n
            invariant
                n == files@.len(),
                i <= n,
                self.statics() == with_files(old(self).statics(), pair_texts(files@), i as int),
                self.static_map() == files_map(old(self).static_map(), pair_texts(files@), i as int),
                self.patterns() == old(self).patterns(),
                self.handlers() == old(self).handlers(),
            decreases n - i,
        {
            self.static_file_route(files[i].0.as_str(), files[i].1.as_str());
            i += 1;
        }
        assert forall|path: Seq<char>|
            !names_file(pair_texts(files@), files@.len() as int, path) implies {
            &&& #[trigger] self.static_map().contains_key(path) <==> old(
                self,
            ).static_map().contains_key(path)
            &&& self.static_map()[path] == old(self).static_map()[path]
        } by {
            lemma_files_keep_other_paths(
                old(self).static_map(),
                pair_texts(files@),
                files@.len() as int,
                path,
            );
        }
    }

    /// The number of dynamic routes. No pattern stands twice among them, and
    /// every handler can be called with every request.
    pub fn route_count(&self) -> (n: usize)
        ensures
            n == self.patterns().len(),
            n == self.handlers().len(),
            distinct_patterns(self.patterns()),
            forall|i: int| 0 <= i < self.handlers().len() ==> accepts_all(#[trigger] self.handlers()[i]),
    {
        proof {
            use_type_invariant(self);
        }
        self.routes.len()
    }

    /// The dynamic route at place `i`, counted from 0 in the order of
    /// registration: its pattern and its handler, or `None` past the last
    /// route.
    pub fn dynamic_route(&self, i: usize) -> (found: Option<(&String, &H)>)
        ensures
            match found {
                Some((pattern, handler)) => i < self.patterns().len() && pattern@
                    == self.patterns()[i as int] && *handler == self.handlers()[i as int],
                None => i >= self.patterns().len(),
            },
    {
        if i < self.routes.len() {
            Some((&self.routes[i].pattern, &self.routes[i].handler))
        } else {
            None
        }
    }

    /// The paths of the static routes, in the order of registration. No path
    /// stands twice among them.
    pub fn static_paths(&self) -> (paths: Vec<String>)
        ensures
            distinct_keys(self.statics()),
            paths@.len() == self.statics().len(),
            forall|i: int| 0 <= i < paths@.len() ==> (#[trigger] paths@[i])@ == self.statics()[i].0,
    {
        let n: usize = self.static_routes.len();
        let mut paths: Vec<String> = Vec::new();
        let mut i: usize = 0;
        while i < n
            invariant
                n == self.statics().len(),
                i <= n,
                paths@.len() == i,
                forall|j: int| 0 <= j < i ==> (#[trigger] paths@[j])@ == self.statics()[j].0,
            decreases n - i,
        {
            match self.static_routes.entry(i) {
                Some((path, _)) => {
                    paths.push(path.clone());
                },
                None => {},
            }
            i += 1;
        }
        paths
    }

    /// The content of the static route of `path`, if there is one.
    pub fn handle_static(&self, path: &str) -> (content: Option<String>)
        ensures
            match content {
                Some(text) => self.static_map().contains_key(path@) && text@
                    == self.static_map()[path@],
                None => !self.static_map().contains_key(path@),
            },
    {
        match self.static_routes.get(path) {
            Some(text) => Some(text.clone()),
            None => None,
        }
    }

    /// The response for the static route of `path` when its content names a
    /// file: `file` is the text of that file, or `None` if it could not be
    /// read. Gives the file's text framed as a `200` response, or `None` if
    /// the path has no static route or there is no text.
    pub fn serve_static(&self, path: &str, file: Option<&str>) -> (response: Option<String>)
        ensures
            match response {
                Some(text) => self.static_map().contains_key(path@) && file is Some && text@
                    == file_response_text(file.unwrap()@),
                None => !self.static_map().contains_key(path@) || file is None,
            },
    {
        if self.static_routes.contains_key(path) {
            match file {
                Some(text) => Some(file_response(text)),
                None => None,
            }
        } else {
            None
        }
    }

    /// Matches `path` against the pattern `route`; see `match_path`.
    pub fn path_matches_route(&self, path: &str, route: &str) -> (found: Option<StringMap>)
        ensures
            match found {
                Some(bound) => match_pairs(path@, route@) == Some(bound.pairs()) && match_path(
                    path@,
                    route@,
                ) == Some(bound@),
                None => match_path(path@, route@) is None,
            },
    {
        match_route(path, route)
    }

    /// Decides how `path` is answered; see `resolve`.
    pub fn resolve(&self, path: &str) -> (found: Resolution)
        ensures
            found@ == self.resolution(path@),
            found matches Resolution::Dynamic { index, params } ==> index < self.patterns().len()
                && match_pairs(path@, self.patterns()[index as int]) == Some(params.pairs()),
    {
        match self.static_routes.get(path) {
            Some(text) => {
                return Resolution::Static(text.clone());
            },
            None => {},
        }
        let n: usize = self.routes.len();
        let mut i: usize = 0;
        while i < n
            invariant
                n == self.routes@.len(),
                i <= n,
                !self.static_map().contains_key(path@),
                first_match(self.patterns(), path@, 0) == first_match(self.patterns(), path@, i as int),
            decreases n - i,
        {
            match self.path_matches_route(path, self.routes[i].pattern.as_str()) {
                Some(params) => {
                    return Resolution::Dynamic { index: i, params };
                },
                None => {},
            }
            i += 1;
        }
        Resolution::NotFound
    }

    /// The response to `request` once it is decided how its path is
    /// answered.
    pub(crate) fn answer(&self, request: &Request, found: Resolution) -> (response: String)
        requires
            found@ == self.resolution(request.path@),
            found matches Resolution::Dynamic { index, params } ==> index < self.patterns().len(),
        ensures
            self.answers(request@, response@),
    {
        match found {
            Resolution::Static(content) => content,
            Resolution::Dynamic { index, params } => {
                proof {
                    use_type_invariant(self);
                }
                let path: &str = request.path.as_str();
                let method: &str = request.method.as_str();
                let form = request.body_params.clone();
                let ghost bound = params;
                let ghost body = form;
                let out = (self.routes[index].handler)(path, params, method, form);
                assert(call_ensures(self.handlers()[index as int], (path, bound, method, body), out));
                match out {
                    Ok(text) => text,
                    Err(text) => text,
                }
            },
            Resolution::NotFound => not_found(),
        }
    }

    /// Answers `request`: with the content of a static route, with what the
    /// handler of the first matching dynamic route gives, or with `404`.
    pub fn respond(&self, request: &Request) -> (response: String)
        ensures
            self.answers(request@, response@),
    {
        let found = self.resolve(request.path.as_str());
        self.answer(request, found)
    }
}

} // verus!
