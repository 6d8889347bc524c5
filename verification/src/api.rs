//! The session-backend API surface: deriving resource names and URLs for a
//! backend, and the spawn payload and result shapes.

use vstd::prelude::*;
use vstd::string::StrSliceExecFns;
use vstd::string::StringExecFns;

verus! {

/// Settings the API handlers derive names and URLs from.
#[derive(Debug)]
pub struct ApiSettings {
    /// The namespace backend resources live in.
    pub namespace: String,
    /// A URL template with a `{}` placeholder for the backend id.
    pub url_template: Option<String>,
    /// The base URL of the API server, if exposed.
    pub api_server_base: Option<String>,
    /// The prefix a backend id gets as a resource name.
    pub service_prefix: String,
}

/// What a spawn call answers.
#[derive(Debug)]
pub struct SpawnResult {
    pub url: Option<String>,
    pub name: String,
    pub ready_url: Option<String>,
    pub status_url: Option<String>,
}

/// What a spawn call asks for.
#[derive(Debug)]
pub struct SpawnPayload {
    /// The container image used to create the container.
    pub image: String,
    /// HTTP port to expose on the container.
    pub port: Option<u16>,
    /// Environment variables to expose on the container.
    pub env: Vec<(String, String)>,
    /// Duration of time (in seconds) before the pod is shut down.
    pub grace_period_seconds: Option<u32>,
}

/// A template with its first `{}` placeholder filled in.
pub open spec fn spec_template_fill(t: Seq<char>, v: Seq<char>) -> Seq<char>
    decreases t.len(),
{
    if t.len() < 2 {
        t
    } else if t[0] == '{' && t[1] == '}' {
        v + t.skip(2)
    } else {
        seq![t[0]] + spec_template_fill(t.skip(1), v)
    }
}

/// Fill a template's first `{}` placeholder.
pub fn template_fill(t: &str, v: &str) -> (r: String)
    ensures
        r@ == spec_template_fill(t@, v@),
{
    let len = t.unicode_len();
    let mut out = String::new();
    let mut i: usize = 0;
    proof {
        assert(t@.skip(0) =~= t@);
        assert(out@ + spec_template_fill(t@, v@) =~= spec_template_fill(t@, v@));
    }
    while len - i > 1
        invariant
            i <= len,
            len == t@.len(),
            spec_template_fill(t@, v@) == out@ + spec_template_fill(t@.skip(i as int), v@),
        decreases len - i,
    {
        if t.get_char(i) == '{' && t.get_char(i + 1) == '}' {
            let ghost pre = out@;
            out.append(v);
            out.append(t.substring_char(i + 2, len));
            proof {
                assert(t@.skip(i as int)[0] == '{');
                assert(t@.skip(i as int)[1] == '}');
                assert(t@.skip(i as int).skip(2) =~= t@.skip(i as int + 2));
                assert(spec_template_fill(t@.skip(i as int), v@) == v@ + t@.skip(i as int + 2));
                assert(t@.subrange(i as int + 2, len as int) =~= t@.skip(i as int + 2));
                assert(out@ == pre + v@ + t@.skip(i as int + 2));
            }
            return out;
        }
        let ghost pre = out@;
        let piece = t.substring_char(i, i + 1);
        out.append(piece);
        proof {
            assert(t@.skip(i as int)[0] == t@[i as int]);
            assert(t@.skip(i as int).skip(1) =~= t@.skip(i as int + 1));
            assert(spec_template_fill(t@.skip(i as int), v@) == seq![t@[i as int]]
                + spec_template_fill(t@.skip(i as int + 1), v@));
            assert(t@.subrange(i as int, i as int + 1) =~= seq![t@[i as int]]);
            assert(out@ == pre + seq![t@[i as int]]);
            assert(out@ + spec_template_fill(t@.skip(i as int + 1), v@) == pre + (seq![
                t@[i as int],
            ] + spec_template_fill(t@.skip(i as int + 1), v@)));
        }
        i = i + 1;
    }
    let ghost pre = out@;
    let tail = t.substring_char(i, len);
    out.append(tail);
    proof {
        assert(t@.skip(i as int).len() < 2);
        assert(spec_template_fill(t@.skip(i as int), v@) == t@.skip(i as int));
        assert(t@.subrange(i as int, len as int) =~= t@.skip(i as int));
    }
    out
}

impl ApiSettings {
    /// The resource name of a backend: the service prefix, then the id.
    pub fn backend_to_slab_name(&self, backend_id: &str) -> (r: String)
        ensures
            r@ == self.service_prefix@ + backend_id@,
    {
        let mut out = String::new();
        out.append(self.service_prefix.as_str());
        out.append(backend_id);
        out
    }

    /// The user-facing URL of a backend, if a template is configured.
    pub fn backend_to_url(&self, backend_id: &str) -> (r: Option<String>)
        ensures
            match self.url_template {
                Some(t) => r matches Some(u) && u@ == spec_template_fill(t@, backend_id@),
                None => r is None,
            },
    {
        match &self.url_template {
            Some(t) => Some(template_fill(t.as_str(), backend_id)),
            None => None,
        }
    }

    /// The API path for one backend endpoint, if a base is configured.
    pub fn backend_api_path(&self, backend_id: &str, path: &str) -> (r: Option<String>)
        ensures
            match self.api_server_base {
                Some(b) => r matches Some(u) && u@ == b@ + "/backend/"@ + backend_id@ + "/"@
                    + path@,
                None => r is None,
            },
    {
        let Some(base) = &self.api_server_base else { return None };
        let mut out = String::new();
        out.append(base.as_str());
        out.append("/backend/");
        out.append(backend_id);
        out.append("/");
        out.append(path);
        Some(out)
    }

    /// The result handed back after a spawn: the backend's URL plus its
    /// ready- and status-endpoints.
    pub fn get_init_result(&self, backend_id: &str) -> (r: SpawnResult)
        ensures
            r.name@ == backend_id@,
            match self.url_template {
                Some(t) => r.url matches Some(u) && u@ == spec_template_fill(t@, backend_id@),
                None => r.url is None,
            },
            match self.api_server_base {
                Some(b) => (r.ready_url matches Some(u) && u@ == b@ + "/backend/"@ + backend_id@
                    + "/"@ + "ready"@) && (r.status_url matches Some(su) && su@ == b@
                    + "/backend/"@ + backend_id@ + "/"@ + "status"@),
                None => r.ready_url is None && r.status_url is None,
            },
    {
        let ready_url = self.backend_api_path(backend_id, "ready");
        let status_url = self.backend_api_path(backend_id, "status");
        SpawnResult {
            url: self.backend_to_url(backend_id),
            name: backend_id.to_owned(),
            ready_url,
            status_url,
        }
    }

    /// The backend id a resource name decodes to: the name with the
    /// service prefix stripped, or nothing if the prefix is absent.
    pub fn slab_name_to_backend(&self, slab_name: &str) -> (r: Option<String>)
        ensures
            match r {
                Some(b) => slab_name@ == self.service_prefix@ + b@,
                None => forall|b: Seq<char>| slab_name@ != self.service_prefix@ + b,
            },
    {
        let plen = self.service_prefix.as_str().unicode_len();
        let nlen = slab_name.unicode_len();
        if nlen < plen {
            proof {
                assert forall|b: Seq<char>| slab_name@ != self.service_prefix@ + b by {
                    assert((self.service_prefix@ + b).len() >= self.service_prefix@.len());
                }
            }
            return None;
        }
        let mut i: usize = 0;
        while i < plen
            invariant
                i <= plen,
                plen == self.service_prefix@.len(),
                nlen == slab_name@.len(),
                plen <= nlen,
                forall|j: int| 0 <= j < i ==> slab_name@[j] == self.service_prefix@[j],
            decreases plen - i,
        {
            if slab_name.get_char(i) != self.service_prefix.as_str().get_char(i) {
                proof {
                    assert forall|b: Seq<char>| slab_name@ != self.service_prefix@ + b by {
                        if slab_name@ == self.service_prefix@ + b {
                            assert((self.service_prefix@ + b)[i as int]
                                == self.service_prefix@[i as int]);
                        }
                    }
                }
                return None;
            }
            i = i + 1;
        }
        let rest = slab_name.substring_char(plen, nlen).to_owned();
        proof {
            assert(slab_name@ =~= self.service_prefix@ + slab_name@.subrange(
                plen as int,
                nlen as int,
            ));
        }
        Some(rest)
    }
}

/// Law: decoding the resource name built for a backend id gives the id
/// back.
pub proof fn lemma_slab_name_round_trip(prefix: Seq<char>, id: Seq<char>, decoded: Seq<char>)
    requires
        prefix + id == prefix + decoded,
    ensures
        id == decoded,
{
    assert((prefix + id).len() == (prefix + decoded).len());
    assert((prefix + id).len() == prefix.len() + id.len());
    assert((prefix + decoded).len() == prefix.len() + decoded.len());
    assert(id.len() == decoded.len());
    assert(id =~= decoded) by {
        assert forall|j: int| 0 <= j < id.len() implies id[j] == decoded[j] by {
            assert((prefix + id)[prefix.len() + j] == (prefix + decoded)[prefix.len() + j]);
            assert((prefix + id)[prefix.len() + j] == id[j]);
            assert((prefix + decoded)[prefix.len() + j] == decoded[j]);
        }
    }
}

} // verus!
