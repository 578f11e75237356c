use vstd::prelude::*;

use crate::alias::DeviceMap;
use crate::error::BconnectError;

verus! {

/// What a run was asked to do.
#[derive(Debug)]
pub enum Action {
    /// Connect the device known by this alias.
    ConnectAlias(String),
    /// Disconnect every connected device.
    DisconnectAll,
}

/// One command for the device controller.
#[derive(Debug)]
pub enum DeviceCommand {
    Disconnect(String),
    Connect(String),
}

/// An `Action` as a mathematical value.
pub enum ActionView {
    ConnectAlias(Seq<char>),
    DisconnectAll,
}

/// A `DeviceCommand` as a mathematical value.
pub enum CommandView {
    Disconnect(Seq<char>),
    Connect(Seq<char>),
}

impl Action {
    pub open spec fn view(&self) -> ActionView {
        match self {
            Action::ConnectAlias(a) => ActionView::ConnectAlias(a@),
            Action::DisconnectAll => ActionView::DisconnectAll,
        }
    }
}

impl DeviceCommand {
    pub open spec fn view(&self) -> CommandView {
        match self {
            DeviceCommand::Disconnect(a) => CommandView::Disconnect(a@),
            DeviceCommand::Connect(a) => CommandView::Connect(a@),
        }
    }
}

/// The views of a list of commands.
pub open spec fn commands_view(cs: Seq<DeviceCommand>) -> Seq<CommandView> {
    cs.map_values(|c: DeviceCommand| c.view())
}

/// The commands that carry out `action`, given the map and the addresses
/// that are connected now; `None` where the alias is not in the map.
/// Disconnecting all disconnects each connected device in turn. Connecting
/// an alias connects its address, after a disconnect where that address is
/// connected already.
pub open spec fn planned(
    table: Map<Seq<char>, Seq<char>>,
    action: ActionView,
    connected: Seq<Seq<char>>,
) -> Option<Seq<CommandView>> {
    match action {
        ActionView::DisconnectAll => Some(
            connected.map_values(|a: Seq<char>| CommandView::Disconnect(a)),
        ),
        ActionView::ConnectAlias(alias) => if table.contains_key(alias) {
            let address = table[alias];
            if connected.contains(address) {
                Some(seq![CommandView::Disconnect(address), CommandView::Connect(address)])
            } else {
                Some(seq![CommandView::Connect(address)])
            }
        } else {
            None
        },
    }
}

/// The action that the arguments ask for: an alias or the disconnect flag,
/// exactly one of the two; neither or both is a usage error.
pub fn select_action(device: Option<String>, disconnect: bool) -> (r: Result<
    Action,
    BconnectError,
>)
    ensures
        r is Err <==> (device is Some) == disconnect,
        r is Err ==> r matches Err(BconnectError::Usage),
        r matches Ok(a) ==> match device {
            Some(d) => a.view() == ActionView::ConnectAlias(d@),
            None => a.view() == ActionView::DisconnectAll,
        },
{
    match device {
        Some(d) => if disconnect {
            Err(BconnectError::Usage)
        } else {
            Ok(Action::ConnectAlias(d))
        },
        None => if disconnect {
            Ok(Action::DisconnectAll)
        } else {
            Err(BconnectError::Usage)
        },
    }
}

/// Whether `address` is among `connected`.
fn is_connected(connected: &Vec<String>, address: &String) -> (b: bool)
    ensures
        b == connected.deep_view().contains(address@),
{
    let n = connected.len();
    let mut k: usize = 0;
    while k < n
        invariant
            n == connected@.len(),
            k <= n,
            forall|i: int| 0 <= i < k ==> connected.deep_view()[i] != address@,
        decreases n - k,
    {
        assert(connected.deep_view()[k as int] == connected@[k as int]@);
        if connected[k] == *address {
            return true;
        }
        k = k + 1;
    }
    false
}

/// The commands that carry out `action` with the map `map`, where
/// `connected` are the addresses connected now; an alias that is not in the
/// map is an error.
pub fn plan_commands(map: &DeviceMap, action: &Action, connected: &Vec<String>) -> (r: Result<
    Vec<DeviceCommand>,
    BconnectError,
>)
    requires
        map.wf(),
    ensures
        match planned(map@, action.view(), connected.deep_view()) {
            Some(steps) => r matches Ok(cs) && commands_view(cs@) == steps,
            None => r matches Err(BconnectError::BadDeviceString(s)) && action.view()
                == ActionView::ConnectAlias(s@),
        },
{
    match action {
        Action::DisconnectAll => {
            let n = connected.len();
            let mut cs: Vec<DeviceCommand> = Vec::new();
            let mut k: usize = 0;
            while k < n
                invariant
                    n == connected@.len(),
                    k <= n,
                    commands_view(cs@) =~= connected.deep_view().subrange(0, k as int).map_values(
                        |a: Seq<char>| CommandView::Disconnect(a),
                    ),
                decreases n - k,
            {
                assert(connected.deep_view()[k as int] == connected@[k as int]@);
                let ghost before = cs@;
                cs.push(DeviceCommand::Disconnect(connected[k].clone()));
                assert(commands_view(cs@) =~= commands_view(before).push(
                    CommandView::Disconnect(connected@[k as int]@),
                ));
                assert(connected.deep_view().subrange(0, k + 1) =~= connected.deep_view().subrange(
                    0,
                    k as int,
                ).push(connected@[k as int]@));
                k = k + 1;
            }
            assert(connected.deep_view().subrange(0, n as int) =~= connected.deep_view());
            Ok(cs)
        },
        Action::ConnectAlias(alias) => {
            let address = map.resolve(alias.as_str())?;
            let mut cs: Vec<DeviceCommand> = Vec::new();
            if is_connected(connected, &address) {
                cs.push(DeviceCommand::Disconnect(address.clone()));
            }
            cs.push(DeviceCommand::Connect(address));
            assert(commands_view(cs@) =~= planned(
                map@,
                action.view(),
                connected.deep_view(),
            )->Some_0);
            Ok(cs)
        },
    }
}

/// Where the alias's device is connected already, the plan disconnects it
/// and then connects it, both at the alias's address, and does nothing else.
pub proof fn connected_alias_is_reconnected(
    table: Map<Seq<char>, Seq<char>>,
    alias: Seq<char>,
    connected: Seq<Seq<char>>,
)
    requires
        table.contains_key(alias),
        connected.contains(table[alias]),
    ensures
        planned(table, ActionView::ConnectAlias(alias), connected) == Some(
            seq![CommandView::Disconnect(table[alias]), CommandView::Connect(table[alias])],
        ),
{
}

} // verus!
