//! Gists as the sync commands see them, and the requests and answers of the
//! GitHub Gist API.
use vstd::prelude::*;
use vstd::string::StringExecFns;
use crate::error::SyncError;
use crate::text::{push_str, str_eq};

verus! {

/// One file of a gist.
#[derive(Debug, Clone)]
pub struct GistFile {
    pub content: String,
}

/// What push and pull need of a gist: its id, its page and its files by name.
#[derive(Debug, Clone)]
pub struct GistInfo {
    pub id: String,
    pub html_url: String,
    pub files: Vec<(String, GistFile)>,
}

/// The names of the files, in order.
pub open spec fn file_names(files: Seq<(String, GistFile)>) -> Seq<Seq<char>> {
    files.map_values(|f: (String, GistFile)| f.0@)
}

/// The index of the first file named `name`; -1 if none.
pub open spec fn first_named(files: Seq<(String, GistFile)>, name: Seq<char>, k: int) -> int
    decreases files.len() - k,
    when 0 <= k <= files.len()
{
    if k >= files.len() {
        -1
    } else if files[k].0@ == name {
        k
    } else {
        first_named(files, name, k + 1)
    }
}

proof fn lemma_first_named(files: Seq<(String, GistFile)>, name: Seq<char>, k: int)
    requires
        0 <= k <= files.len(),
    ensures
        first_named(files, name, k) == -1 ==> forall|j: int| k <= j < files.len() ==> files[j].0@ != name,
        first_named(files, name, k) != -1 ==> k <= first_named(files, name, k) < files.len()
            && files[first_named(files, name, k)].0@ == name,
    decreases files.len() - k,
{
    if k < files.len() {
        lemma_first_named(files, name, k + 1);
    }
}

impl GistInfo {
    /// The file named `file_name` (the first, should several share it); when
    /// there is none, the error names the gist, the file and the files found.
    pub fn file(&self, gist_id: &str, file_name: &str) -> (r: Result<&GistFile, SyncError>)
        ensures
            first_named(self.files@, file_name@, 0) >= 0 ==> (r matches Ok(f)
                && *f == self.files@[first_named(self.files@, file_name@, 0)].1),
            first_named(self.files@, file_name@, 0) < 0 ==> (r matches Err(SyncError::FileNotFoundInGist { gist_id: g, file_name: n, found })
                && g@ == gist_id@ && n@ == file_name@ && found@.map_values(|t: String| t@) == file_names(self.files@)),
    {
        proof {
            lemma_first_named(self.files@, file_name@, 0);
        }
        let mut i: usize = 0;
        while i < self.files.len()
            invariant
                i <= self.files.len(),
                first_named(self.files@, file_name@, i as int) == first_named(self.files@, file_name@, 0),
            decreases self.files.len() - i,
        {
            if str_eq(self.files[i].0.as_str(), file_name) {
                return Ok(&self.files[i].1);
            }
            i = i + 1;
        }
        let mut found: Vec<String> = Vec::new();
        let mut j: usize = 0;
        while j < self.files.len()
            invariant
                j <= self.files.len(),
                found@.map_values(|t: String| t@) == file_names(self.files@).take(j as int),
            decreases self.files.len() - j,
        {
            let ghost before = found@.map_values(|t: String| t@);
            let c = self.files[j].0.clone();
            found.push(c);
            assert(found@.map_values(|t: String| t@) =~= before.push(c@));
            assert(file_names(self.files@).take(j + 1) =~= file_names(self.files@).take(j as int).push(c@));
            j = j + 1;
        }
        assert(file_names(self.files@).take(j as int) =~= file_names(self.files@));
        Err(SyncError::FileNotFoundInGist {
            gist_id: String::from_str(gist_id),
            file_name: String::from_str(file_name),
            found,
        })
    }
}

/// One file of an API answer: name, content and whether the API truncated it.
pub struct ApiFile {
    pub name: String,
    pub content: String,
    pub truncated: bool,
}

/// The gist of an API answer, or `Truncated` naming the first truncated
/// file: a truncated file holds only part of its content, which must never
/// replace a snippet file.
pub fn from_response(id: String, html_url: String, files: Vec<ApiFile>) -> (r: Result<GistInfo, SyncError>)
    ensures
        (exists|i: int| 0 <= i < files@.len() && (#[trigger] files@[i]).truncated) ==> (r matches Err(SyncError::Truncated(name))
            && exists|i: int| 0 <= i < files@.len() && (#[trigger] files@[i]).truncated && files@[i].name@ == name@
                && forall|j: int| 0 <= j < i ==> !(#[trigger] files@[j]).truncated),
        (forall|i: int| 0 <= i < files@.len() ==> !(#[trigger] files@[i]).truncated) ==> (r matches Ok(g) && g.id == id
            && g.html_url == html_url && g.files@.len() == files@.len()
            && forall|i: int| 0 <= i < files@.len() ==> (#[trigger] g.files@[i]).0@ == files@[i].name@
                && g.files@[i].1.content@ == files@[i].content@),
{
    let mut i: usize = 0;
    while i < files.len()
        invariant
            i <= files.len(),
            forall|j: int| 0 <= j < i ==> !(#[trigger] files@[j]).truncated,
        decreases files.len() - i,
    {
        if files[i].truncated {
            return Err(SyncError::Truncated(files[i].name.clone()));
        }
        i = i + 1;
    }
    let mut out: Vec<(String, GistFile)> = Vec::new();
    let mut k: usize = 0;
    while k < files.len()
        invariant
            k <= files.len(),
            out@.len() == k,
            forall|j: int| 0 <= j < k ==> (#[trigger] out@[j]).0@ == files@[j].name@ && out@[j].1.content@ == files@[j].content@,
        decreases files.len() - k,
    {
        out.push((files[k].name.clone(), GistFile { content: files[k].content.clone() }));
        k = k + 1;
    }
    Ok(GistInfo { id, html_url, files: out })
}

/// The error for an API answer with a failure status: 401 means a rejected
/// token; 404 a missing gist when a gist was named, else an unexpected
/// status without body; any other status is unexpected, with its body.
pub fn status_error(status: u16, body: String, gist_id_for_404: Option<&str>) -> (r: SyncError)
    ensures
        status == 401 ==> r == SyncError::Unauthorized,
        status == 404 ==> match gist_id_for_404 {
            Some(id) => r matches SyncError::GistNotFound(g) && g@ == id@,
            None => r matches SyncError::UnexpectedStatus { status: s, body: b } && s == 404 && b@.len() == 0,
        },
        status != 401 && status != 404 ==> (r matches SyncError::UnexpectedStatus { status: s, body: b } && s == status
            && b@ == body@),
{
    if status == 401 {
        SyncError::Unauthorized
    } else if status == 404 {
        match gist_id_for_404 {
            Some(id) => SyncError::GistNotFound(String::from_str(id)),
            None => SyncError::UnexpectedStatus { status: 404, body: String::new() },
        }
    } else {
        SyncError::UnexpectedStatus { status, body }
    }
}

/// An HTTP request to the Gist API.
pub struct ApiRequest {
    pub method: String,
    pub url: String,
    pub headers: Vec<(String, String)>,
}

/// The client of the GitHub Gist API: where it is and the token it sends.
pub struct GistApiClient {
    base_url: String,
    access_token: String,
}

/// The headers of every request made with `token`.
pub open spec fn api_headers(token: Seq<char>) -> Seq<(Seq<char>, Seq<char>)> {
    seq![
        ("Authorization"@, "Bearer "@ + token),
        ("Accept"@, "application/vnd.github+json"@),
        ("X-GitHub-Api-Version"@, "2022-11-28"@),
        ("User-Agent"@, "pet-cli"@),
    ]
}

/// The (name, value) texts of a list of headers.
pub open spec fn header_views(h: Seq<(String, String)>) -> Seq<(Seq<char>, Seq<char>)> {
    h.map_values(|p: (String, String)| (p.0@, p.1@))
}

impl GistApiClient {
    /// The API's address.
    pub closed spec fn base(&self) -> Seq<char> {
        self.base_url@
    }

    /// The token sent with each request.
    pub closed spec fn token(&self) -> Seq<char> {
        self.access_token@
    }

    /// A client of `https://api.github.com` sending `access_token`.
    pub fn new(access_token: String) -> (r: GistApiClient)
        ensures
            r.base() == "https://api.github.com"@,
            r.token() == access_token@,
    {
        Self::with_base_url(access_token, String::from_str("https://api.github.com"))
    }

    /// A client of the API at `base_url` sending `access_token`.
    pub fn with_base_url(access_token: String, base_url: String) -> (r: GistApiClient)
        ensures
            r.base() == base_url@,
            r.token() == access_token@,
    {
        GistApiClient { base_url, access_token }
    }

    /// A request with `method` to `path` under the API's address.
    fn request(&self, method: &str, path: &str) -> (r: ApiRequest)
        ensures
            r.method@ == method@,
            r.url@ == self.base() + path@,
            header_views(r.headers@) == api_headers(self.token()),
    {
        let mut url = self.base_url.clone();
        push_str(&mut url, path);
        let mut bearer = String::from_str("Bearer ");
        push_str(&mut bearer, self.access_token.as_str());
        let headers = vec![
            (String::from_str("Authorization"), bearer),
            (String::from_str("Accept"), String::from_str("application/vnd.github+json")),
            (String::from_str("X-GitHub-Api-Version"), String::from_str("2022-11-28")),
            (String::from_str("User-Agent"), String::from_str("pet-cli")),
        ];
        assert(header_views(headers@) =~= api_headers(self.token()));
        ApiRequest { method: String::from_str(method), url, headers }
    }

    /// The request that creates a gist: `POST /gists`.
    pub fn create_request(&self) -> (r: ApiRequest)
        ensures
            r.method@ == "POST"@,
            r.url@ == self.base() + "/gists"@,
            header_views(r.headers@) == api_headers(self.token()),
    {
        self.request("POST", "/gists")
    }

    /// The request that replaces files of the gist `gist_id`: `PATCH /gists/{id}`.
    pub fn update_request(&self, gist_id: &str) -> (r: ApiRequest)
        ensures
            r.method@ == "PATCH"@,
            r.url@ == self.base() + "/gists/"@ + gist_id@,
            header_views(r.headers@) == api_headers(self.token()),
    {
        let mut path = String::from_str("/gists/");
        push_str(&mut path, gist_id);
        let r = self.request("PATCH", path.as_str());
        assert(r.url@ =~= self.base() + "/gists/"@ + gist_id@);
        r
    }

    /// The request that fetches the gist `gist_id`: `GET /gists/{id}`.
    pub fn get_request(&self, gist_id: &str) -> (r: ApiRequest)
        ensures
            r.method@ == "GET"@,
            r.url@ == self.base() + "/gists/"@ + gist_id@,
            header_views(r.headers@) == api_headers(self.token()),
    {
        let mut path = String::from_str("/gists/");
        push_str(&mut path, gist_id);
        let r = self.request("GET", path.as_str());
        assert(r.url@ =~= self.base() + "/gists/"@ + gist_id@);
        r
    }
}

} // verus!
