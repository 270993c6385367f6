//! How a running daemon makes its address known.

use crate::complaint::{over, Complaint};
use crate::config::{below, endpoint_path_in, DaemonEndpointPath, DAEMON_ENDPOINT_FILE_NAME};
use crate::lexical_path::{components, join_path, joined_text, path_file_name, LexicalPath};
use crate::net::{
    connect_host, connect_host_for_bind_ip, format_http_base_url, http_base_url, SocketAddress,
};
use crate::text::{
    decimal, decimal_text, is_white_space, opt_view, trim, trimmed, trimmed_end,
    trimmed_start,
};
use vstd::prelude::*;

verus! {

/// The address of a running daemon and the file that holds it.
#[derive(Debug)]
pub struct PublishedDiscovery {
    endpoint_file: LexicalPath,
    endpoint_url: String,
}

/// What has to be written to make an address known.
#[derive(Debug)]
pub struct Publication {
    pub discovery: PublishedDiscovery,
    /// The directory that has to exist first.
    pub dir: LexicalPath,
    /// What the file has to hold.
    pub payload: String,
}

/// The URL under which a daemon bound to an address is reached.
pub open spec fn published_url(bind_addr: SocketAddress) -> Seq<char> {
    http_base_url(connect_host(bind_addr.ip), bind_addr.port)
}

/// The address in an endpoint file: all it holds but the white space at its ends, if there is
/// anything else.
pub open spec fn endpoint_text(contents: Seq<char>) -> Option<Seq<char>> {
    if trimmed(contents).len() == 0 {
        None
    } else {
        Some(trimmed(contents))
    }
}

/// The address in an endpoint file, given what the file holds.
pub fn endpoint_in(contents: &str) -> (r: Option<String>)
    ensures
        opt_view(r) == endpoint_text(contents@),
{
    let url = trim(contents);
    if url.as_str().is_empty() {
        None
    } else {
        Some(url)
    }
}

/// What a daemon writes into its endpoint file is read back as the address of the daemon.
pub proof fn law_published_address_is_found(bind_addr: SocketAddress)
    ensures
        endpoint_text(published_url(bind_addr) + "\n"@) == Some(published_url(bind_addr)),
{
    let url = published_url(bind_addr);
    let contents = url + "\n"@;
    reveal_strlit("http://");
    reveal_strlit("\n");
    assert(contents[0] == 'h');
    assert(url[0] == 'h');
    assert(contents.last() == '\n');
    assert(contents.drop_last() =~= url);
    let port = decimal(bind_addr.port as nat);
    assert(port.len() > 0 && !is_white_space(port.last()));
    assert(url.last() == port.last());
    assert(trimmed_start(contents) == contents);
    assert(trimmed_end(url) == url);
}

impl PublishedDiscovery {
    /// The path of the file.
    pub closed spec fn spec_endpoint_file(&self) -> Seq<Seq<char>> {
        self.endpoint_file@
    }

    /// The path of the file as it is written.
    pub closed spec fn spec_endpoint_text(&self) -> Seq<char> {
        self.endpoint_file.written()
    }

    /// The URL of the daemon.
    pub closed spec fn spec_base_url(&self) -> Seq<char> {
        self.endpoint_url@
    }

    /// What has to be written so that a daemon bound to an address is found, below
    /// `runtime_dir_override` or else at the usual place.
    pub fn publish(
        bind_addr: &SocketAddress,
        runtime_dir_override: &Option<LexicalPath>,
        usual_path: Result<DaemonEndpointPath, Complaint>,
    ) -> (r: Result<Publication, Complaint>)
        ensures
            r is Ok <==> runtime_dir_override is Some || usual_path is Ok,
            r matches Ok(p) ==> {
                &&& p.discovery.spec_base_url() == published_url(*bind_addr)
                &&& p.payload@ == published_url(*bind_addr) + "\n"@
                &&& runtime_dir_override matches Some(dir) ==> p.dir@ == dir@
                    && p.dir.written() == dir.written() && p.discovery.spec_endpoint_file()
                    == below(dir@, DAEMON_ENDPOINT_FILE_NAME@) && p.discovery.spec_endpoint_text()
                    == joined_text(dir.written(), DAEMON_ENDPOINT_FILE_NAME@)
                &&& runtime_dir_override is None ==> (usual_path matches Ok(usual) && p.dir
                    == usual.dir && p.discovery.spec_endpoint_file() == usual.endpoint_file@
                    && p.discovery.spec_endpoint_text() == usual.endpoint_file.written())
            },
            r matches Err(complaint) ==> complaint@ == over(
                "failed to resolve daemon endpoint path"@,
                usual_path->Err_0@,
            ),
    {
        let endpoint_path = match runtime_dir_override {
            Some(dir) => endpoint_path_in(dir.clone()),
            None => match usual_path {
                Ok(path) => path,
                Err(cause) => {
                    return Err(
                        Complaint::over(
                            "failed to resolve daemon endpoint path".to_string(),
                            cause,
                        ),
                    );
                },
            },
        };
        let host = connect_host_for_bind_ip(&bind_addr.ip);
        let endpoint_url = format_http_base_url(host.as_str(), bind_addr.port);
        let mut payload = endpoint_url.clone();
        payload.append("\n");
        Ok(
            Publication {
                discovery: PublishedDiscovery {
                    endpoint_file: endpoint_path.endpoint_file,
                    endpoint_url,
                },
                dir: endpoint_path.dir,
                payload,
            },
        )
    }

    /// The path of the file.
    pub fn endpoint_file(&self) -> (r: &LexicalPath)
        ensures
            r@ == self.spec_endpoint_file(),
            r.written() == self.spec_endpoint_text(),
    {
        &self.endpoint_file
    }

    /// The URL of the daemon.
    pub fn base_url(&self) -> (r: &str)
        ensures
            r@ == self.spec_base_url(),
    {
        self.endpoint_url.as_str()
    }
}

/// The name of the file that is written before it takes the place of `destination`.
pub open spec fn temp_file_name(destination: Seq<Seq<char>>, process: u32, nanos: u128) -> Seq<char> {
    "."@ + (match path_file_name(destination) {
        Some(name) => name,
        None => "daemon-endpoint.tmp"@,
    }) + "."@ + decimal(process as nat) + "."@ + decimal(nanos as nat) + ".tmp"@
}

/// The path of the file that is written before it takes the place of `destination`.
pub fn temp_file_path(
    parent: &LexicalPath,
    destination: &LexicalPath,
    process: u32,
    nanos: u128,
) -> (r: LexicalPath)
    ensures
        r@ == join_path(parent@, components(temp_file_name(destination@, process, nanos))),
        r.written() == joined_text(
            parent.written(),
            temp_file_name(destination@, process, nanos),
        ),
{
    let mut name = ".".to_string();
    match destination.file_name() {
        Some(known) => {
            name.append(known.as_str());
        },
        None => {
            name.append("daemon-endpoint.tmp");
        },
    }
    name.append(".");
    let number = decimal_text(process as u128);
    name.append(number.as_str());
    name.append(".");
    let time = decimal_text(nanos);
    name.append(time.as_str());
    name.append(".tmp");
    parent.join_text(name.as_str())
}

} // verus!
