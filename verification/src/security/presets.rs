//! Permission hierarchies to start from: file systems, databases, and the
//! administration of a system.

use vstd::prelude::*;
use crate::security::delegation::PermissionHierarchy;
use crate::security::hierarchy::{SimplePermissionHierarchy, acyclic, edge, is_path, reaches, step};

verus! {

/// A permission with no implication of its own reaches no other one.
proof fn lemma_sink_reaches_nothing(
    g: crate::security::hierarchy::Graph,
    a: Seq<char>,
    b: Seq<char>,
)
    requires
        a != b,
        forall|y: Seq<char>| !#[trigger] edge(g, a, y),
    ensures
        !reaches(g, a, b),
{
    if reaches(g, a, b) {
        let p = choose|p: Seq<Seq<char>>| #[trigger] is_path(g, p) && p[0] == a && p.last() == b;
        if p.len() >= 2 {
            assert(step(g, p, 0));
            assert(edge(g, a, p[1]));
        }
    }
}

/// Adds the implication of `child` by `parent`, where `child` implies
/// nothing yet: it is accepted, and no cycle appears.
fn add_to_sink(h: &mut SimplePermissionHierarchy, parent: &str, child: &str)
    requires
        child@ != parent@,
        forall|y: Seq<char>| !#[trigger] edge(old(h).graph(), child@, y),
        acyclic(old(h).graph()),
    ensures
        acyclic(final(h).graph()),
        forall|x: Seq<char>, y: Seq<char>|
            #[trigger] edge(final(h).graph(), x, y) <==> edge(old(h).graph(), x, y) || (x == parent@
                && y == child@),
{
    proof {
        lemma_sink_reaches_nothing(h.graph(), child@, parent@);
    }
    let _ = h.add_implication(parent, child);
}

/// The hierarchy of a file system: `admin` implies `write` and `read`, and
/// `write` implies `read`.
pub fn filesystem_hierarchy() -> (h: SimplePermissionHierarchy)
    ensures
        acyclic(h.graph()),
        forall|x: Seq<char>, y: Seq<char>|
            #[trigger] edge(h.graph(), x, y) <==> (x == "admin"@ && y == "write"@) || (x == "admin"@
                && y == "read"@) || (x == "write"@ && y == "read"@),
{
    proof {
        reveal_strlit("admin");
        reveal_strlit("write");
        reveal_strlit("read");
    }
    let mut h = SimplePermissionHierarchy::new();
    proof {
        crate::security::hierarchy::lemma_empty_acyclic(h.graph());
        assert("admin"@[0] != "write"@[0]);
    }
    add_to_sink(&mut h, "admin", "write");
    add_to_sink(&mut h, "admin", "read");
    add_to_sink(&mut h, "write", "read");
    h
}

/// The hierarchy of a database: `db_admin` implies `db_write` and
/// `db_read`, and `db_write` implies `db_read`.
pub fn database_hierarchy() -> (h: SimplePermissionHierarchy)
    ensures
        acyclic(h.graph()),
        forall|x: Seq<char>, y: Seq<char>|
            #[trigger] edge(h.graph(), x, y) <==> (x == "db_admin"@ && y == "db_write"@) || (x
                == "db_admin"@ && y == "db_read"@) || (x == "db_write"@ && y == "db_read"@),
{
    proof {
        reveal_strlit("db_admin");
        reveal_strlit("db_write");
        reveal_strlit("db_read");
    }
    let mut h = SimplePermissionHierarchy::new();
    proof {
        crate::security::hierarchy::lemma_empty_acyclic(h.graph());
        assert("db_admin"@[3] != "db_write"@[3]);
    }
    add_to_sink(&mut h, "db_admin", "db_write");
    add_to_sink(&mut h, "db_admin", "db_read");
    add_to_sink(&mut h, "db_write", "db_read");
    h
}

/// The hierarchy of the administration of a system: `system_admin`
/// implies the administration of users, services and the network; each
/// of these implies writing and reading its domain, and writing implies
/// reading.
pub fn system_hierarchy() -> (h: SimplePermissionHierarchy)
    ensures
        acyclic(h.graph()),
        forall|x: Seq<char>, y: Seq<char>|
            #[trigger] edge(h.graph(), x, y) <==> (x == "system_admin"@ && (y == "user_admin"@ || y
                == "service_admin"@ || y == "network_admin"@)) || (x == "user_admin"@ && (y
                == "user_write"@ || y == "user_read"@)) || (x == "user_write"@ && y == "user_read"@)
                || (x == "service_admin"@ && (y == "service_write"@ || y == "service_read"@)) || (x
                == "service_write"@ && y == "service_read"@) || (x == "network_admin"@ && (y
                == "network_write"@ || y == "network_read"@)) || (x == "network_write"@ && y
                == "network_read"@),
{
    proof {
        reveal_strlit("system_admin");
        reveal_strlit("user_admin");
        reveal_strlit("user_write");
        reveal_strlit("user_read");
        reveal_strlit("service_admin");
        reveal_strlit("service_write");
        reveal_strlit("service_read");
        reveal_strlit("network_admin");
        reveal_strlit("network_write");
        reveal_strlit("network_read");
    }
    let mut h = SimplePermissionHierarchy::new();
    proof {
        crate::security::hierarchy::lemma_empty_acyclic(h.graph());
        assert("system_admin"@[0] != "user_admin"@[0]);
        assert("system_admin"@[1] != "service_admin"@[1]);
        assert("system_admin"@[0] != "network_admin"@[0]);
        assert("user_admin"@[5] != "user_write"@[5]);
        assert("service_admin"@[8] != "service_write"@[8]);
        assert("network_admin"@[8] != "network_write"@[8]);
        assert("service_read"@[1] != "system_admin"@[1]);
        assert("network_read"@[0] != "system_admin"@[0]);
        assert("user_read"@[0] != "system_admin"@[0]);
        assert("network_write"@[0] != "service_write"@[0]);
        assert("network_write"@[0] != "service_admin"@[0]);
        assert("network_read"@[0] != "service_write"@[0]);
    }
    add_to_sink(&mut h, "system_admin", "user_admin");
    add_to_sink(&mut h, "system_admin", "service_admin");
    add_to_sink(&mut h, "system_admin", "network_admin");
    add_to_sink(&mut h, "user_admin", "user_write");
    add_to_sink(&mut h, "user_admin", "user_read");
    add_to_sink(&mut h, "user_write", "user_read");
    add_to_sink(&mut h, "service_admin", "service_write");
    add_to_sink(&mut h, "service_admin", "service_read");
    add_to_sink(&mut h, "service_write", "service_read");
    add_to_sink(&mut h, "network_admin", "network_write");
    add_to_sink(&mut h, "network_admin", "network_read");
    add_to_sink(&mut h, "network_write", "network_read");
    h
}

} // verus!
