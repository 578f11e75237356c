use vstd::prelude::*;
use vstd::string::*;

use crate::connected::is_address;
use crate::error::BconnectError;

verus! {

/// One row of the device map: a short alias and the hardware address it
/// stands for.
#[derive(Debug)]
pub struct DeviceEntry {
    pub alias: String,
    pub address: String,
}

/// The map from aliases to hardware addresses.
pub struct DeviceMap {
    entries: Vec<DeviceEntry>,
}

/// The map that a list of rows describes.
pub open spec fn table_of(rows: Seq<(Seq<char>, Seq<char>)>) -> Map<Seq<char>, Seq<char>>
    decreases rows.len(),
{
    if rows.len() == 0 {
        Map::empty()
    } else {
        table_of(rows.drop_last()).insert(rows.last().0, rows.last().1)
    }
}

/// No alias occurs in two rows.
pub open spec fn aliases_unique(rows: Seq<(Seq<char>, Seq<char>)>) -> bool {
    forall|i: int, j: int| 0 <= i < j < rows.len() ==> #[trigger] rows[i].0 != #[trigger] rows[j].0
}

proof fn lemma_table_of(rows: Seq<(Seq<char>, Seq<char>)>)
    requires
        aliases_unique(rows),
    ensures
        forall|k: int|
            0 <= k < rows.len() ==> table_of(rows).contains_key(#[trigger] rows[k].0) && table_of(
                rows,
            )[rows[k].0] == rows[k].1,
        forall|key: Seq<char>| #[trigger]
            table_of(rows).contains_key(key) ==> exists|k: int| 0 <= k < rows.len() && rows[k].0 == key,
    decreases rows.len(),
{
    if rows.len() > 0 {
        let init = rows.drop_last();
        assert(aliases_unique(init));
        lemma_table_of(init);
        assert forall|k: int| 0 <= k < rows.len() implies table_of(rows).contains_key(
            #[trigger] rows[k].0,
        ) && table_of(rows)[rows[k].0] == rows[k].1 by {
            if k < rows.len() - 1 {
                assert(init[k] == rows[k]);
                assert(rows[k].0 != rows[rows.len() - 1].0);
            }
        }
        assert forall|key: Seq<char>| #[trigger]
            table_of(rows).contains_key(key) implies exists|k: int|
                0 <= k < rows.len() && rows[k].0 == key by {
            if key == rows.last().0 {
                assert(rows[rows.len() - 1].0 == key);
            } else {
                assert(table_of(init).contains_key(key));
                let k = choose|k: int| 0 <= k < init.len() && init[k].0 == key;
                assert(rows[k] == init[k]);
            }
        }
    }
}

impl DeviceEntry {
    pub open spec fn view(&self) -> (Seq<char>, Seq<char>) {
        (self.alias@, self.address@)
    }
}

impl DeviceEntry {
    /// A row from an alias and an address.
    pub fn new(alias: &str, address: &str) -> (r: DeviceEntry)
        ensures
            r.alias@ == alias@,
            r.address@ == address@,
    {
        DeviceEntry { alias: String::from_str(alias), address: String::from_str(address) }
    }
}

/// The rows of the standard device map.
pub open spec fn standard_rows() -> Seq<(Seq<char>, Seq<char>)> {
    seq![
        ("buds"@, "B0:4A:6A:C9:DF:0C"@),
        ("jabra"@, "30:50:75:C7:3D:B7"@),
        ("link"@, "F8:4E:17:75:18:A2"@),
        ("pbuds"@, "FC:91:5D:70:51:41"@),
        ("tw4"@, "80:C3:BA:55:83:B1"@),
        ("xm4"@, "14:3F:A6:E7:9B:4F"@),
        ("xm5"@, "AC:80:0A:27:99:3E"@),
    ]
}

impl DeviceMap {
    /// The device map with the seven known devices.
    pub fn standard() -> (m: DeviceMap)
        ensures
            m.wf(),
            m.rows() == standard_rows(),
    {
        let mut entries: Vec<DeviceEntry> = Vec::new();
        entries.push(DeviceEntry::new("buds", "B0:4A:6A:C9:DF:0C"));
        entries.push(DeviceEntry::new("jabra", "30:50:75:C7:3D:B7"));
        entries.push(DeviceEntry::new("link", "F8:4E:17:75:18:A2"));
        entries.push(DeviceEntry::new("pbuds", "FC:91:5D:70:51:41"));
        entries.push(DeviceEntry::new("tw4", "80:C3:BA:55:83:B1"));
        entries.push(DeviceEntry::new("xm4", "14:3F:A6:E7:9B:4F"));
        entries.push(DeviceEntry::new("xm5", "AC:80:0A:27:99:3E"));
        let m = DeviceMap { entries };
        assert(m.rows() =~= standard_rows());
        proof {
            reveal_strlit("buds");
            reveal_strlit("jabra");
            reveal_strlit("link");
            reveal_strlit("pbuds");
            reveal_strlit("tw4");
            reveal_strlit("xm4");
            reveal_strlit("xm5");
            reveal_strlit("B0:4A:6A:C9:DF:0C");
            reveal_strlit("30:50:75:C7:3D:B7");
            reveal_strlit("F8:4E:17:75:18:A2");
            reveal_strlit("FC:91:5D:70:51:41");
            reveal_strlit("80:C3:BA:55:83:B1");
            reveal_strlit("14:3F:A6:E7:9B:4F");
            reveal_strlit("AC:80:0A:27:99:3E");
            let rows = standard_rows();
            assert forall|i: int, j: int| 0 <= i < j < rows.len() implies #[trigger] rows[i].0
                != #[trigger] rows[j].0 by {
                assert(rows[i].0[0] != rows[j].0[0] || rows[i].0.len() != rows[j].0.len()
                    || rows[i].0[1] != rows[j].0[1] || rows[i].0[2] != rows[j].0[2]);
            }
            assert forall|k: int| 0 <= k < rows.len() implies is_address(#[trigger] rows[k].1) by {
                let a = rows[k].1;
                assert forall|i: int| 0 <= i < 17 implies if i % 3 == 2 {
                    a[i] == ':'
                } else {
                    crate::connected::is_upper_hex(#[trigger] a[i])
                } by {
                    assert(0 <= i < 17);
                }
            }
        }
        m
    }

    /// The rows, in the order they were given.
    pub closed spec fn rows(&self) -> Seq<(Seq<char>, Seq<char>)> {
        self.entries@.map_values(|e: DeviceEntry| e.view())
    }

    /// The map from each alias to its address.
    pub open spec fn view(&self) -> Map<Seq<char>, Seq<char>> {
        table_of(self.rows())
    }

    /// Aliases are unique and every address is in canonical form.
    pub open spec fn wf(&self) -> bool {
        &&& aliases_unique(self.rows())
        &&& forall|k: int| 0 <= k < self.rows().len() ==> is_address(#[trigger] self.rows()[k].1)
    }

    /// A map built from rows, or `None` where two rows share an alias or an
    /// address is not in canonical form.
    pub fn from_entries(entries: Vec<DeviceEntry>) -> (r: Option<DeviceMap>)
        ensures
            match r {
                Some(m) => m.wf() && m.rows() == entries@.map_values(|e: DeviceEntry| e.view()),
                None => !(aliases_unique(entries@.map_values(|e: DeviceEntry| e.view())) && forall|
                    k: int,
                | 0 <= k < entries@.len() ==> is_address(#[trigger] entries@[k].address@)),
            },
    {
        let ghost rows = entries@.map_values(|e: DeviceEntry| e.view());
        let n = entries.len();
        let mut j: usize = 0;
        while j < n
            invariant
                n == entries@.len(),
                rows == entries@.map_values(|e: DeviceEntry| e.view()),
                j <= n,
                forall|a: int, b: int| 0 <= a < b < j ==> #[trigger] rows[a].0 != #[trigger] rows[b].0,
                forall|k: int| 0 <= k < j ==> is_address(#[trigger] entries@[k].address@),
            decreases n - j,
        {
            if !address_is_canonical(entries[j].address.as_str()) {
                return None;
            }
            let mut i: usize = 0;
            while i < j
                invariant
                    n == entries@.len(),
                    rows == entries@.map_values(|e: DeviceEntry| e.view()),
                    i <= j < n,
                    forall|a: int| 0 <= a < i ==> rows[a].0 != rows[j as int].0,
                decreases j - i,
            {
                if entries[i].alias == entries[j].alias {
                    assert(rows[i as int].0 == rows[j as int].0);
                    return None;
                }
                i = i + 1;
            }
            j = j + 1;
        }
        let m = DeviceMap { entries };
        assert forall|k: int| 0 <= k < m.rows().len() implies is_address(#[trigger] m.rows()[k].1) by {
            assert(is_address(entries@[k].address@));
        }
        Some(m)
    }

    /// The address for `alias`; an alias that is not in the map is an error.
    pub fn resolve(&self, alias: &str) -> (r: Result<String, BconnectError>)
        requires
            self.wf(),
        ensures
            match r {
                Ok(a) => self@.contains_key(alias@) && a@ == self@[alias@],
                Err(e) => !self@.contains_key(alias@) && (e matches BconnectError::BadDeviceString(s)
                    && s@ == alias@),
            },
    {
        proof {
            lemma_table_of(self.rows());
        }
        let key = String::from_str(alias);
        let n = self.entries.len();
        let mut k: usize = 0;
        while k < n
            invariant
                self.wf(),
                n == self.rows().len(),
                k <= n,
                key@ == alias@,
                forall|i: int| 0 <= i < k ==> self.rows()[i].0 != alias@,
            decreases n - k,
        {
            assert(self.rows()[k as int] == (
                self.entries@[k as int].alias@,
                self.entries@[k as int].address@,
            ));
            if self.entries[k].alias == key {
                let a = self.entries[k].address.clone();
                proof {
                    lemma_table_of(self.rows());
                }
                assert(table_of(self.rows()).contains_key(self.rows()[k as int].0));
                assert(a@ == self.rows()[k as int].1);
                return Ok(a);
            }
            k = k + 1;
        }
        Err(BconnectError::BadDeviceString(key))
    }

    /// The aliases, in the order of the rows.
    pub fn aliases(&self) -> (r: Vec<String>)
        ensures
            r.deep_view() == self.rows().map_values(|row: (Seq<char>, Seq<char>)| row.0),
    {
        let n = self.entries.len();
        let mut r: Vec<String> = Vec::new();
        let mut k: usize = 0;
        while k < n
            invariant
                n == self.rows().len(),
                k <= n,
                r.deep_view() =~= self.rows().subrange(0, k as int).map_values(
                    |row: (Seq<char>, Seq<char>)| row.0,
                ),
            decreases n - k,
        {
            let ghost before = r.deep_view();
            let a = self.entries[k].alias.clone();
            r.push(a);
            proof {
                assert(self.rows()[k as int].0 == self.entries@[k as int].alias@);
                assert(r.deep_view() =~= before.push(a@));
                assert(self.rows().subrange(0, k + 1).map_values(
                    |row: (Seq<char>, Seq<char>)| row.0,
                ) =~= self.rows().subrange(0, k as int).map_values(
                    |row: (Seq<char>, Seq<char>)| row.0,
                ).push(self.rows()[k as int].0));
            }
            k = k + 1;
        }
        assert(self.rows().subrange(0, n as int) =~= self.rows());
        r
    }
}

/// Every row's alias leads to exactly the address configured in that row.
pub proof fn configured_alias_resolves(m: DeviceMap, k: int)
    requires
        m.wf(),
        0 <= k < m.rows().len(),
    ensures
        m@.contains_key(m.rows()[k].0),
        m@[m.rows()[k].0] == m.rows()[k].1,
{
    lemma_table_of(m.rows());
    assert(m@.contains_key(m.rows()[k].0));
}

/// Whether `s` is a hardware address in canonical form.
pub fn address_is_canonical(s: &str) -> (b: bool)
    ensures
        b == is_address(s@),
{
    if s.unicode_len() != 17 {
        return false;
    }
    let mut i: usize = 0;
    while i < 17
        invariant
            s@.len() == 17,
            i <= 17,
            forall|t: int|
                0 <= t < i ==> if t % 3 == 2 {
                    s@[t] == ':'
                } else {
                    crate::connected::is_upper_hex(#[trigger] s@[t])
                },
        decreases 17 - i,
    {
        let c = s.get_char(i);
        let ok = if i % 3 == 2 {
            c == ':'
        } else {
            ('0' <= c && c <= '9') || ('A' <= c && c <= 'F')
        };
        if !ok {
            return false;
        }
        i = i + 1;
    }
    true
}

} // verus!
