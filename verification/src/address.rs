//! The addresses that the servers are reached at.
use vstd::prelude::*;

use crate::text::{
    decimal, decimal_string, decimal_value, law_decimal_is_canonical, law_decimal_reads_back,
};

verus! {

/// A host and a port as one text.
pub open spec fn address(host: Seq<char>, port: u16) -> Seq<char> {
    host + ":"@ + decimal(port as nat)
}

/// The URL of a SQLite database that is kept at `database`.
pub open spec fn sqlite_url(database: Seq<char>) -> Seq<char> {
    "sqlite:"@ + database
}

/// Writes a host and a port as one text.
pub fn format_address(host: &str, port: u16) -> (r: String)
    ensures
        r@ == address(host@, port),
        r@.len() > host@.len() + 1,
        r@.take(host@.len() as int) == host@,
        r@[host@.len() as int] == ':',
        forall|i: int| host@.len() < i < r@.len() ==> '0' <= #[trigger] r@[i] <= '9',
        r@[host@.len() + 1int] == '0' ==> r@.len() == host@.len() + 2,
        decimal_value(r@.skip(host@.len() + 1int)) == port,
{
    proof {
        law_address_is_host_colon_port(host@, port);
    }
    host.to_string().concat(":").concat(decimal_string(port).as_str())
}

/// Writes the URL of the database that the indexer stores to.
pub fn database_url(database: &str) -> (r: String)
    ensures
        r@ == sqlite_url(database@),
        r@.take(7) == seq!['s', 'q', 'l', 'i', 't', 'e', ':'],
        r@.skip(7) == database@,
{
    proof {
        law_database_url_keeps_the_path(database@);
    }
    "sqlite:".to_string().concat(database)
}

/// An address is the host, a colon, and the port: what stands before the last colon is the host,
/// and what stands behind it consists of digits, without a needless zero in front, that read as
/// the port.
pub proof fn law_address_is_host_colon_port(host: Seq<char>, port: u16)
    ensures
        ({
            let a = address(host, port);
            let n = host.len() as int;
            &&& a.len() > n + 1
            &&& a.take(n) == host
            &&& a[n] == ':'
            &&& forall|i: int| n < i < a.len() ==> '0' <= #[trigger] a[i] <= '9'
            &&& a[n + 1] == '0' ==> a.len() == n + 2
            &&& decimal_value(a.skip(n + 1)) == port
        }),
{
    let a = address(host, port);
    let n = host.len() as int;
    let d = decimal(port as nat);
    reveal_strlit(":");
    law_decimal_is_canonical(port as nat);
    law_decimal_reads_back(port as nat);
    assert(a.take(n) =~= host);
    assert(a.skip(n + 1) =~= d);
    assert forall|i: int| n < i < a.len() implies '0' <= #[trigger] a[i] <= '9' by {
        assert(a[i] == d[i - n - 1]);
    }
}

/// The URL of a database is the scheme of SQLite and then the whole path as it was given. So
/// different paths have different URLs.
pub proof fn law_database_url_keeps_the_path(database: Seq<char>)
    ensures
        sqlite_url(database).len() == 7 + database.len(),
        sqlite_url(database).take(7) == seq!['s', 'q', 'l', 'i', 't', 'e', ':'],
        sqlite_url(database).skip(7) == database,
{
    reveal_strlit("sqlite:");
    assert(sqlite_url(database).take(7) =~= seq!['s', 'q', 'l', 'i', 't', 'e', ':']);
    assert(sqlite_url(database).skip(7) =~= database);
}

/// An address tells its host and its port: two servers with the same address have both in common.
pub proof fn law_address_tells_host_and_port(
    host1: Seq<char>,
    port1: u16,
    host2: Seq<char>,
    port2: u16,
)
    requires
        address(host1, port1) == address(host2, port2),
    ensures
        host1 == host2,
        port1 == port2,
{
    let a = address(host1, port1);
    let b = address(host2, port2);
    let d1 = decimal(port1 as nat);
    let d2 = decimal(port2 as nat);
    reveal_strlit(":");
    law_decimal_is_canonical(port1 as nat);
    law_decimal_is_canonical(port2 as nat);
    assert(":"@.len() == 1);
    assert(a.len() == host1.len() + 1 + d1.len());
    assert(b.len() == host2.len() + 1 + d2.len());
    assert(a[host1.len() as int] == ':');
    assert(b[host2.len() as int] == ':');
    if host1.len() < host2.len() {
        let i = host2.len() - host1.len() - 1;
        assert(a[host2.len() as int] == d1[i]);
        assert('0' <= d1[i]);
    } else if host2.len() < host1.len() {
        let i = host1.len() - host2.len() - 1;
        assert(b[host1.len() as int] == d2[i]);
        assert('0' <= d2[i]);
    }
    assert(host1 =~= a.take(host1.len() as int));
    assert(host2 =~= b.take(host2.len() as int));
    assert(d1 =~= a.skip(host1.len() + 1int));
    assert(d2 =~= b.skip(host2.len() + 1int));
    law_decimal_reads_back(port1 as nat);
    law_decimal_reads_back(port2 as nat);
}

} // verus!
