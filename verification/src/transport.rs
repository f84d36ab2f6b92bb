//! Choosing and rewriting git-server transports: the ordered list of
//! protocols to try for a clone URL, and the rewrites between the
//! `https://`, `ssh://` and `git@` URL forms.
use vstd::prelude::*;

use crate::nostr_calls::{url_domain, url_domain_of};
use crate::strutil::{
    contains_char, find_char_first, find_char_from, is_first_char, lemma_find_char_first,
    lemma_find_char_first_none, starts_with_spec, starts_with_str, str_eq,
};

verus! {

/// A git server protocol that the helper can attempt.
#[derive(Clone, Copy, PartialEq, Eq, Structural, Debug)]
pub enum ServerProtocol {
    Filesystem,
    UnauthHttp,
    UnauthHttps,
    Http,
    Https,
    Ssh,
    Ftp,
}

/// A git server URL, held as text.
pub struct CloneUrl {
    pub url: String,
}

/// What a `nostr://` URL decoded to, as far as transport selection reads
/// it: the user-pinned protocol, if any.
pub struct NostrUrlDecoded {
    pub protocol: Option<ServerProtocol>,
}

/// The protocol a clone URL's scheme names; URLs without a recognized
/// scheme (`git@` SCP syntax among them) count as SSH.
pub open spec fn spec_protocol_of(u: Seq<char>) -> ServerProtocol {
    if starts_with_spec(u, "file://"@) {
        ServerProtocol::Filesystem
    } else if starts_with_spec(u, "https://"@) {
        ServerProtocol::Https
    } else if starts_with_spec(u, "http://"@) {
        ServerProtocol::Http
    } else if starts_with_spec(u, "ftp://"@) {
        ServerProtocol::Ftp
    } else {
        ServerProtocol::Ssh
    }
}

impl CloneUrl {
    pub open spec fn spec_protocol(self) -> ServerProtocol {
        spec_protocol_of(self.url@)
    }

    /// The protocol this URL's scheme names.
    pub fn protocol(&self) -> (r: ServerProtocol)
        ensures
            r == self.spec_protocol(),
    {
        let u = self.url.as_str();
        if starts_with_str(u, "file://") {
            ServerProtocol::Filesystem
        } else if starts_with_str(u, "https://") {
            ServerProtocol::Https
        } else if starts_with_str(u, "http://") {
            ServerProtocol::Http
        } else if starts_with_str(u, "ftp://") {
            ServerProtocol::Ftp
        } else {
            ServerProtocol::Ssh
        }
    }
}

/// The ordered protocol list for one server: a filesystem URL is read
/// directly; a user-pinned protocol is tried alone; an `http://` server
/// is tried unauthenticated, then over SSH, then authenticated; an FTP
/// server over FTP then SSH; anything else unauthenticated HTTPS, SSH,
/// then authenticated HTTPS.
pub open spec fn spec_read_protocols(
    p: ServerProtocol,
    pinned: Option<ServerProtocol>,
) -> Seq<ServerProtocol> {
    if p == ServerProtocol::Filesystem {
        seq![ServerProtocol::Filesystem]
    } else if pinned is Some {
        seq![pinned.unwrap()]
    } else if p == ServerProtocol::Http {
        seq![ServerProtocol::UnauthHttp, ServerProtocol::Ssh, ServerProtocol::Http]
    } else if p == ServerProtocol::Ftp {
        seq![ServerProtocol::Ftp, ServerProtocol::Ssh]
    } else {
        seq![ServerProtocol::UnauthHttps, ServerProtocol::Ssh, ServerProtocol::Https]
    }
}

/// The ordered list of server protocols to attempt for reading.
pub fn get_read_protocols_to_try(server_url: &CloneUrl, decoded_nostr_url: &NostrUrlDecoded) -> (r:
    Vec<ServerProtocol>)
    ensures
        r@ == spec_read_protocols(server_url.spec_protocol(), decoded_nostr_url.protocol),
{
    let p = server_url.protocol();
    let mut r: Vec<ServerProtocol> = Vec::new();
    if p == ServerProtocol::Filesystem {
        r.push(ServerProtocol::Filesystem);
    } else if let Some(pinned) = decoded_nostr_url.protocol {
        r.push(pinned);
    } else if p == ServerProtocol::Http {
        r.push(ServerProtocol::UnauthHttp);
        r.push(ServerProtocol::Ssh);
        r.push(ServerProtocol::Http);
    } else if p == ServerProtocol::Ftp {
        r.push(ServerProtocol::Ftp);
        r.push(ServerProtocol::Ssh);
    } else {
        r.push(ServerProtocol::UnauthHttps);
        r.push(ServerProtocol::Ssh);
        r.push(ServerProtocol::Https);
    }
    proof {
        assert(r@ =~= spec_read_protocols(
            server_url.spec_protocol(),
            decoded_nostr_url.protocol,
        ));
    }
    r
}

/// Transport order: an unpinned `http://` server is tried in exactly the
/// order unauthenticated HTTP, SSH, authenticated HTTP; a `file://` URL
/// is read from the filesystem alone.
pub proof fn lemma_transport_order(u: Seq<char>)
    ensures
        starts_with_spec(u, "http://"@) ==> spec_read_protocols(spec_protocol_of(u), None) == seq![
            ServerProtocol::UnauthHttp,
            ServerProtocol::Ssh,
            ServerProtocol::Http,
        ],
        starts_with_spec(u, "file://"@) ==> spec_read_protocols(spec_protocol_of(u), None) == seq![
            ServerProtocol::Filesystem,
        ],
{
    reveal_strlit("http://");
    reveal_strlit("https://");
    reveal_strlit("file://");
    reveal_strlit("ftp://");
    if starts_with_spec(u, "http://"@) {
        assert(u.take(7)[0] == u[0] && u[0] == 'h');
        if starts_with_spec(u, "file://"@) {
            assert(u.take(7)[0] == 'f');
        }
        if starts_with_spec(u, "https://"@) {
            assert(u.take(8)[4] == 's');
            assert(u.take(7)[4] == ':');
            assert(u[4] == 's' && u[4] == ':');
        }
        assert(spec_protocol_of(u) == ServerProtocol::Http);
    }
    if starts_with_spec(u, "file://"@) {
        assert(spec_protocol_of(u) == ServerProtocol::Filesystem);
    }
}

/// What switching a clone URL yields: `https://host/path` and
/// `ssh://host/path` become `git@host:path`; `git@host:path` (with a
/// single colon) becomes `https://host/path`; anything else is an error
/// naming the URL.
pub open spec fn spec_switch_url(u: Seq<char>) -> Result<Seq<char>, Seq<char>> {
    if starts_with_spec(u, "https://"@) {
        let rest = u.skip("https://"@.len() as int);
        match find_char_first(rest, '/', 0) {
            Some(k) => Ok("git@"@ + rest.take(k) + ":"@ + rest.skip(k + 1)),
            None => Err("Invalid HTTPS URL format: "@ + u),
        }
    } else if starts_with_spec(u, "ssh://"@) {
        let rest = u.skip("ssh://"@.len() as int);
        match find_char_first(rest, '/', 0) {
            Some(k) => Ok("git@"@ + rest.take(k) + ":"@ + rest.skip(k + 1)),
            None => Err("Invalid SSH URL format: "@ + u),
        }
    } else if starts_with_spec(u, "git@"@) {
        let rest = u.skip("git@"@.len() as int);
        match find_char_first(rest, ':', 0) {
            Some(k) => if contains_char(rest.skip(k + 1), ':') {
                Err("Invalid git@ URL format: "@ + u)
            } else {
                Ok("https://"@ + rest.take(k) + "/"@ + rest.skip(k + 1))
            },
            None => Err("Invalid git@ URL format: "@ + u),
        }
    } else {
        Err("Unsupported URL protocol: "@ + u)
    }
}

fn switch_scheme_to_git_at(url: &str, plen: usize) -> (r: Option<String>)
    requires
        plen <= url@.len(),
    ensures
        match r {
            Some(v) => match find_char_first(url@.skip(plen as int), '/', 0) {
                Some(k) => v@ == "git@"@ + url@.skip(plen as int).take(k) + ":"@ + url@.skip(
                    plen as int,
                ).skip(k + 1),
                None => false,
            },
            None => find_char_first(url@.skip(plen as int), '/', 0) is None,
        },
{
    let ulen: usize = url.unicode_len();
    match find_char_from(url, '/', plen) {
        Some(j) => {
            proof {
                assert forall|m: int| 0 <= m < j - plen implies url@.skip(plen as int)[m]
                    != '/' by {
                    assert(url@.skip(plen as int)[m] == url@[m + plen]);
                }
                assert(url@.skip(plen as int)[j - plen] == url@[j as int]);
                assert(is_first_char(url@.skip(plen as int), '/', 0, j - plen));
                lemma_find_char_first(url@.skip(plen as int), '/', 0, j - plen);
            }
            let mut v = String::from_str("git@");
            v.append(url.substring_char(plen, j));
            v.append(":");
            v.append(url.substring_char(j + 1, ulen));
            proof {
                let rest = url@.skip(plen as int);
                assert(url@.subrange(plen as int, j as int) =~= rest.take(j - plen));
                assert(url@.subrange(j + 1, ulen as int) =~= rest.skip(j - plen + 1));
            }
            Some(v)
        },
        None => {
            proof {
                assert forall|m: int| 0 <= m < url@.skip(plen as int).len() implies url@.skip(
                    plen as int,
                )[m] != '/' by {
                    assert(url@.skip(plen as int)[m] == url@[m + plen]);
                }
                lemma_find_char_first_none(url@.skip(plen as int), '/', 0);
            }
            None
        },
    }
}

/// Rewrites a clone URL between its `https://`/`ssh://` form and its
/// `git@host:path` form; a URL in neither form is an error.
pub fn switch_clone_url_between_ssh_and_https(url: &str) -> (r: Result<String, String>)
    ensures
        match r {
            Ok(v) => spec_switch_url(url@) == Ok::<Seq<char>, Seq<char>>(v@),
            Err(m) => spec_switch_url(url@) == Err::<Seq<char>, Seq<char>>(m@),
        },
{
    let ulen: usize = url.unicode_len();
    if starts_with_str(url, "https://") {
        let plen: usize = "https://".unicode_len();
        match switch_scheme_to_git_at(url, plen) {
            Some(v) => Ok(v),
            None => {
                let mut m = String::from_str("Invalid HTTPS URL format: ");
                m.append(url);
                Err(m)
            },
        }
    } else if starts_with_str(url, "ssh://") {
        let plen: usize = "ssh://".unicode_len();
        match switch_scheme_to_git_at(url, plen) {
            Some(v) => Ok(v),
            None => {
                let mut m = String::from_str("Invalid SSH URL format: ");
                m.append(url);
                Err(m)
            },
        }
    } else if starts_with_str(url, "git@") {
        let plen: usize = "git@".unicode_len();
        match find_char_from(url, ':', plen) {
            Some(j) => {
                proof {
                    assert forall|m: int| 0 <= m < j - plen implies url@.skip(plen as int)[m]
                        != ':' by {
                        assert(url@.skip(plen as int)[m] == url@[m + plen]);
                    }
                    assert(url@.skip(plen as int)[j - plen] == url@[j as int]);
                    assert(is_first_char(url@.skip(plen as int), ':', 0, j - plen));
                    lemma_find_char_first(url@.skip(plen as int), ':', 0, j - plen);
                }
                match find_char_from(url, ':', j + 1) {
                    Some(w2) => {
                        proof {
                            let rest = url@.skip(plen as int);
                            assert(rest.skip(j - plen + 1)[w2 - j - 1] == url@[w2 as int]);
                            assert(contains_char(rest.skip(j - plen + 1), ':'));
                        }
                        let mut m = String::from_str("Invalid git@ URL format: ");
                        m.append(url);
                        Err(m)
                    },
                    None => {
                        proof {
                            let rest = url@.skip(plen as int);
                            if contains_char(rest.skip(j - plen + 1), ':') {
                                let w = choose|w: int|
                                    0 <= w < rest.skip(j - plen + 1).len() && #[trigger] rest.skip(
                                        j - plen + 1,
                                    )[w] == ':';
                                assert(rest.skip(j - plen + 1)[w] == url@[w + j + 1]);
                            }
                        }
                        let mut v = String::from_str("https://");
                        v.append(url.substring_char(plen, j));
                        v.append("/");
                        v.append(url.substring_char(j + 1, ulen));
                        proof {
                            let rest = url@.skip(plen as int);
                            assert(url@.subrange(plen as int, j as int) =~= rest.take(j - plen));
                            assert(url@.subrange(j + 1, ulen as int) =~= rest.skip(j - plen + 1));
                        }
                        Ok(v)
                    },
                }
            },
            None => {
                proof {
                    assert forall|m: int| 0 <= m < url@.skip(plen as int).len() implies url@.skip(
                        plen as int,
                    )[m] != ':' by {
                        assert(url@.skip(plen as int)[m] == url@[m + plen]);
                    }
                    lemma_find_char_first_none(url@.skip(plen as int), ':', 0);
                }
                let mut m = String::from_str("Invalid git@ URL format: ");
                m.append(url);
                Err(m)
            },
        }
    } else {
        let mut m = String::from_str("Unsupported URL protocol: ");
        m.append(url);
        Err(m)
    }
}

/// How a remote entry of the local repository is read: its name and its
/// configured URL, either of which git may leave unset.
pub open spec fn spec_find_remote(
    remotes: Seq<(Option<String>, Option<String>)>,
    url: Seq<char>,
) -> Option<Seq<char>>
    decreases remotes.len(),
{
    if remotes.len() == 0 {
        None
    } else {
        match remotes[0] {
            (Some(n), Some(u)) => if u@ == url {
                Some(n@)
            } else {
                spec_find_remote(remotes.drop_first(), url)
            },
            _ => spec_find_remote(remotes.drop_first(), url),
        }
    }
}

/// Finds the name of the first named remote whose configured URL equals
/// `url`.
pub fn get_remote_name_by_url(remotes: &Vec<(Option<String>, Option<String>)>, url: &str) -> (r:
    Result<String, String>)
    ensures
        match r {
            Ok(n) => spec_find_remote(remotes@, url@) == Some(n@),
            Err(m) => spec_find_remote(remotes@, url@) is None && m@
                == "could not find remote with matching url"@,
        },
{
    let n: usize = remotes.len();
    let mut i: usize = 0;
    proof {
        assert(remotes@.skip(0) =~= remotes@);
    }
    while i < n
        invariant
            0 <= i <= n,
            n == remotes@.len(),
            spec_find_remote(remotes@, url@) == spec_find_remote(remotes@.skip(i as int), url@),
        decreases n - i,
    {
        proof {
            assert(remotes@.skip(i as int)[0] == remotes@[i as int]);
            assert(remotes@.skip(i as int).drop_first() =~= remotes@.skip(i + 1));
        }
        match &remotes[i] {
            (Some(nm), Some(u)) => {
                if str_eq(u.as_str(), url) {
                    return Ok(nm.clone());
                }
            },
            _ => {},
        }
        i = i + 1;
    }
    Err(String::from_str("could not find remote with matching url"))
}

/// A short display name for a git server: the name of the matching
/// configured remote when one exists, else the URL's domain, else the
/// URL itself.
pub fn get_short_git_server_name(
    remotes: &Vec<(Option<String>, Option<String>)>,
    url: &str,
) -> (r: String)
    ensures
        r@ == match spec_find_remote(remotes@, url@) {
            Some(n) => n,
            None => match url_domain_of(url@) {
                Some(d) => d,
                None => url@,
            },
        },
{
    match get_remote_name_by_url(remotes, url) {
        Ok(n) => n,
        Err(_) => match url_domain(url) {
            Some(d) => d,
            None => String::from_str(url),
        },
    }
}

/// URL round trip: switching `https://host/path` gives `git@host:path`,
/// and switching that gives the original URL back, whenever neither host
/// nor path holds a colon and the host holds no slash.
#[verifier::rlimit(100)]
pub proof fn lemma_switch_url_round_trip(u: Seq<char>, h: Seq<char>, p: Seq<char>)
    requires
        u == "https://"@ + h + "/"@ + p,
        !contains_char(h, ':'),
        !contains_char(h, '/'),
        !contains_char(p, ':'),
    ensures
        spec_switch_url(u) is Ok,
        spec_switch_url(spec_switch_url(u)->Ok_0) == Ok::<Seq<char>, Seq<char>>(u),
{
    reveal_strlit("https://");
    reveal_strlit("ssh://");
    reveal_strlit("git@");
    reveal_strlit("/");
    reveal_strlit(":");
    assert(u.take(8) =~= "https://"@);
    assert(starts_with_spec(u, "https://"@));
    let rest = u.skip(8);
    assert(rest =~= h + "/"@ + p);
    assert forall|m: int| 0 <= m < h.len() implies rest[m] != '/' by {
        assert(rest[m] == h[m]);
    }
    assert(rest[h.len() as int] == '/');
    assert(is_first_char(rest, '/', 0, h.len() as int));
    lemma_find_char_first(rest, '/', 0, h.len() as int);
    assert(rest.take(h.len() as int) =~= h);
    assert(rest.skip(h.len() as int + 1) =~= p);
    let v = "git@"@ + h + ":"@ + p;
    assert(spec_switch_url(u) == Ok::<Seq<char>, Seq<char>>(v));
    assert(v.len() >= 5);
    assert(v[0] == 'g' && v[3] == '@');
    if starts_with_spec(v, "https://"@) {
        assert(v.take(8)[0] == v[0]);
        assert(v[0] == 'h');
    }
    if starts_with_spec(v, "ssh://"@) {
        assert(v.take(6)[0] == v[0]);
        assert(v[0] == 's');
    }
    assert(v.take(4) =~= "git@"@);
    assert(starts_with_spec(v, "git@"@));
    let rest2 = v.skip(4);
    assert(rest2 =~= h + ":"@ + p);
    assert forall|m: int| 0 <= m < h.len() implies rest2[m] != ':' by {
        assert(rest2[m] == h[m]);
    }
    assert(rest2[h.len() as int] == ':');
    assert(is_first_char(rest2, ':', 0, h.len() as int));
    lemma_find_char_first(rest2, ':', 0, h.len() as int);
    assert(rest2.take(h.len() as int) =~= h);
    assert(rest2.skip(h.len() as int + 1) =~= p);
    assert(!contains_char(rest2.skip(h.len() as int + 1), ':'));
    assert("https://"@ + h + "/"@ + p =~= u);
}

} // verus!
