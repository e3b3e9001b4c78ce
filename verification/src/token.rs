use vstd::prelude::*;

use crate::ident::random_bytes;
use crate::text::ascii_bytes;
use crate::{KEY_SIZE, NONCE_SIZE};

verus! {

/// The cloud services the tool can talk to.
#[derive(Clone, Copy, PartialEq, Eq, Structural)]
pub enum CloudService {
    /// Google Drive.
    Google,
    /// Dropbox.
    Dropbox,
}

/// The credentials of one session with a cloud service. The access token
/// is an opaque capability obtained entirely outside the core; the seeds
/// protect the token at rest.
pub struct UserToken {
    /// The service this token belongs to.
    pub service: CloudService,
    /// Key for protecting the stored token.
    pub key_seed: Vec<u8>,
    /// Nonce paired with the key seed.
    pub nonce_seed: Vec<u8>,
    /// When the token was obtained, in seconds since the epoch.
    pub time_stamp: u64,
    /// The bearer credential itself.
    pub access_token: String,
}

impl UserToken {
    /// Fixed-size seed material.
    pub open spec fn wf(&self) -> bool {
        &&& self.key_seed@.len() == KEY_SIZE
        &&& self.nonce_seed@.len() == NONCE_SIZE
    }

    /// Wrap an access credential, with fresh seed material, for a session
    /// starting at the given time.
    pub fn new(service: CloudService, time_stamp: u64, access_token: String) -> (r: Self)
        ensures
            r.wf(),
            r.service == service,
            r.time_stamp == time_stamp,
            r.access_token@ == access_token@,
    {
        let key_seed = random_bytes(KEY_SIZE);
        let nonce_seed = random_bytes(NONCE_SIZE);
        UserToken { service, key_seed, nonce_seed, time_stamp, access_token }
    }
}

/// The parameter name that carries the access token in a redirect body.
pub open spec fn token_marker() -> Seq<u8> {
    ascii_bytes("access_token="@)
}

/// The token parameter starts at `i`: at the front of the body or right
/// after a separator, spelling the parameter name.
pub open spec fn param_at(b: Seq<u8>, i: int) -> bool {
    &&& 0 <= i
    &&& i + token_marker().len() <= b.len()
    &&& (i == 0 || b[i - 1] == 38)
    &&& b.subrange(i, i + token_marker().len() as int) == token_marker()
}

/// The value starting at `s` runs to `e`: the next separator, or the end.
pub open spec fn value_runs_to(b: Seq<u8>, s: int, e: int) -> bool {
    &&& s <= e <= b.len()
    &&& (e == b.len() || b[e] == 38)
    &&& forall|k: int| s <= k < e ==> b[k] != 38
}

/// Pull the access token's value out of a form-encoded redirect body:
/// the bytes of the first `access_token` parameter, up to the next
/// separator. Nothing when the body carries no such parameter.
pub fn extract_access_token(body: &Vec<u8>) -> (r: Option<Vec<u8>>)
    ensures
        r is Some <==> exists|i: int| param_at(body@, i),
        r matches Some(v) ==> exists|i: int|
            {
                &&& #[trigger] param_at(body@, i)
                &&& forall|i2: int| 0 <= i2 < i ==> !param_at(body@, i2)
                &&& exists|e: int|
                    #[trigger] value_runs_to(body@, i + token_marker().len() as int, e) && v@
                        == body@.subrange(i + token_marker().len() as int, e)
            },
{
    proof {
        reveal_strlit("access_token=");
        assert("access_token="@.len() == 13);
        assert(vstd::utf8::is_ascii_chars("access_token="@));
        assert(token_marker().len() == 13);
    }
    let marker: Vec<u8> = crate::text::ascii_bytes_vec("access_token=");
    let m = marker.len();
    let n = body.len();
    if n < m {
        proof {
            assert forall|i: int| !param_at(body@, i) by {}
        }
        return None;
    }
    let mut i: usize = 0;
    let mut pos: usize = n;
    // Find the first position where the parameter starts.
    while i <= n - m
        invariant
            m == 13,
            token_marker().len() == 13,
            marker@ == token_marker(),
            n == body@.len(),
            n >= m,
            i <= n - m + 1,
            pos == n || (pos <= n - m && param_at(body@, pos as int) && (forall|i2: int|
                0 <= i2 < pos ==> !param_at(body@, i2))),
            pos == n ==> forall|i2: int| 0 <= i2 < i ==> !param_at(body@, i2),
        decreases n - i,
    {
        if pos == n && (i == 0 || body[i - 1] == 38) {
            let mut j: usize = 0;
            let mut matched = true;
            while j < m
                invariant
                    m == 13,
                    token_marker().len() == 13,
                    marker@ == token_marker(),
                    n == body@.len(),
                    n >= m,
                    i <= n - m,
                    j <= m,
                    matched ==> forall|k: int| 0 <= k < j ==> body@[i + k] == token_marker()[k],
                    !matched ==> exists|k: int|
                        0 <= k < token_marker().len() && body@[i + k] != token_marker()[k],
                decreases m - j,
            {
                if body[i + j] != marker[j] {
                    matched = false;
                    proof {
                        assert(body@[i + j] != token_marker()[j as int]);
                    }
                    j = m;
                } else {
                    j = j + 1;
                }
            }
            if matched {
                pos = i;
                proof {
                    assert(body@.subrange(i as int, i + 13) =~= token_marker());
                    assert(param_at(body@, i as int));
                }
            } else {
                proof {
                    let k = choose|k: int|
                        0 <= k < token_marker().len() && body@[i + k] != token_marker()[k];
                    if param_at(body@, i as int) {
                        assert(body@.subrange(i as int, i + 13)[k] == body@[i + k]);
                    }
                }
            }
        } else {
            proof {
                if pos == n && param_at(body@, i as int) {
                    assert(i > 0 && body@[i - 1] != 38);
                }
            }
        }
        i = i + 1;
    }
    if pos == n {
        proof {
            assert forall|i2: int| !param_at(body@, i2) by {
                if param_at(body@, i2) {
                    assert(i2 + 13 <= n);
                    assert(0 <= i2 < n - m + 1);
                }
            }
        }
        return None;
    }
    // The value runs from after the marker to the next separator.
    let start = pos + m;
    let mut e: usize = start;
    while e < n && body[e] != 38
        invariant
            n == body@.len(),
            start <= e <= n,
            forall|k: int| start <= k < e ==> body@[k] != 38,
        decreases n - e,
    {
        e = e + 1;
    }
    let value: Vec<u8> = vstd::slice::slice_to_vec(
        vstd::slice::slice_subrange(body.as_slice(), start, e),
    );
    proof {
        assert(value_runs_to(body@, start as int, e as int));
        assert(value@ =~= body@.subrange(start as int, e as int));
        assert(param_at(body@, pos as int));
    }
    Some(value)
}

} // verus!
