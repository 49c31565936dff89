//! UPS device names and the addresses that name a device on a host.

use vstd::prelude::*;
use crate::string_escape::{escape_string_value, escaped};
use crate::text::{decimal, decimal_string};

verus! {

/// The name of a UPS device, such as `myups`.
#[derive(Debug, Clone)]
pub struct ModNutUpsDeviceName(pub String);

impl ModNutUpsDeviceName {
    pub open spec fn text(&self) -> Seq<char> {
        self.0@
    }

    pub fn to_string(&self) -> (s: String)
        ensures
            s@ == self.text(),
    {
        self.0.clone()
    }
}

/// The description of a UPS device; the protocol writes it escaped.
#[derive(Debug, Clone)]
pub struct ModNutUpsDeviceDescription(pub String);

impl ModNutUpsDeviceDescription {
    pub open spec fn text(&self) -> Seq<char> {
        escaped(self.0@)
    }

    pub fn to_string(&self) -> (s: String)
        ensures
            s@ == self.text(),
    {
        escape_string_value(self.0.as_str())
    }
}

/// The number of systems attached to a UPS device.
#[derive(Debug, Clone)]
pub struct ModNutUpsDeviceActiveSystems(pub u64);

impl ModNutUpsDeviceActiveSystems {
    pub open spec fn text(&self) -> Seq<char> {
        decimal(self.0 as nat)
    }

    pub fn to_string(&self) -> (s: String)
        ensures
            s@ == self.text(),
    {
        decimal_string(self.0)
    }
}

/// A UPS device on a host: `name`, `name@host` or `name@host:port`.
#[derive(Debug, Clone)]
pub struct ModNutUpsDeviceAddress {
    name: ModNutUpsDeviceName,
    host_and_port: Option<(String, Option<u16>)>,
}

impl ModNutUpsDeviceAddress {
    pub fn new(name: ModNutUpsDeviceName, host_and_port: Option<(String, Option<u16>)>) -> (address: Self)
        ensures
            address.name() == name,
            address.host_and_port() == host_and_port,
    {
        ModNutUpsDeviceAddress { name, host_and_port }
    }

    pub closed spec fn name(&self) -> ModNutUpsDeviceName {
        self.name
    }

    pub closed spec fn host_and_port(&self) -> Option<(String, Option<u16>)> {
        self.host_and_port
    }

    pub open spec fn text(&self) -> Seq<char> {
        match self.host_and_port() {
            Some((host, Some(port))) => self.name().text() + "@"@ + host@ + ":"@ + decimal(port as nat),
            Some((host, None)) => self.name().text() + "@"@ + host@,
            None => self.name().text(),
        }
    }

    pub fn to_string(&self) -> (s: String)
        ensures
            s@ == self.text(),
    {
        let mut s = self.name.to_string();
        match &self.host_and_port {
            Some((host, Some(port))) => {
                s.append("@");
                s.append(host.as_str());
                s.append(":");
                s.append(decimal_string(*port as u64).as_str());
            },
            Some((host, None)) => {
                s.append("@");
                s.append(host.as_str());
            },
            None => {},
        }
        s
    }
}

} // verus!
