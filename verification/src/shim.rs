//! Fixed texts: the remote shim, the command that installs it, and the help.

use vstd::prelude::*;

verus! {

/// The remote command that stores its input as the remote `code` command.
pub const INSTALL_COMMAND: &'static str = r#"mkdir -p "$HOME/.local/bin" && tmp="$(mktemp "$HOME/.local/bin/code.XXXXXX")" && cat > "$tmp" && chmod +x "$tmp" && mv "$tmp" "$HOME/.local/bin/code""#;

/// The help text.
pub const HELP: &'static str = r#"vssh 0.1.0

Usage:
  vssh [options] <host> [-- raw ssh args]
  vssh install-shim [options] <host> [-- raw ssh args]
  vssh print-shim

Connect options:
  --code-host HOST     VS Code Remote-SSH target name. Defaults to <host>.
  --local-port PORT    Local bridge port. Defaults to an ephemeral port.
  --remote-port PORT   Remote loopback port for reverse forwarding. Defaults to a random high port.
  -q, --quiet          Suppress bridge startup logging.
  --ssh-bin PATH       SSH executable. Defaults to $VSSH_SSH or ssh.
  --code-bin PATH      Local VS Code CLI. Defaults to $VSSH_CODE or code.

Examples:
  vssh install-shim devbox
  vssh devbox
  vssh --code-host devbox-alias user@example.com

Inside the remote shell started by vssh:
  code .
  code file.rs
  code -g src/main.rs:42:1
  code -r .
"#;

/// The remote `code` command: it sends its arguments to the bridge.
pub const REMOTE_CODE_SHIM: &'static str = r#"#!/usr/bin/env python3
import json
import os
import shutil
import subprocess
import sys
import urllib.error
import urllib.request


def find_real_code():
    self_path = os.path.realpath(sys.argv[0])
    for directory in os.environ.get("PATH", "").split(os.pathsep):
        if not directory:
            continue
        candidate = os.path.join(directory, "code")
        if os.path.realpath(candidate) == self_path:
            continue
        if os.path.isfile(candidate) and os.access(candidate, os.X_OK):
            return candidate
    return None


def fallback():
    real_code = find_real_code()
    if real_code:
        os.execv(real_code, [real_code] + sys.argv[1:])
    print(
        "vssh: LOCAL_CODE_BRIDGE is not set. Start this shell with `vssh <host>`.",
        file=sys.stderr,
    )
    return 127


def main():
    bridge = os.environ.get("LOCAL_CODE_BRIDGE")
    token = os.environ.get("LOCAL_CODE_TOKEN")
    host = os.environ.get("LOCAL_CODE_SSH_HOST")
    if not bridge or not token or not host:
        return fallback()

    payload = {
        "host": host,
        "cwd": os.getcwd(),
        "args": sys.argv[1:],
    }
    body = json.dumps(payload).encode("utf-8")
    request = urllib.request.Request(
        bridge.rstrip("/") + "/open",
        data=body,
        method="POST",
        headers={
            "Authorization": "Bearer " + token,
            "Content-Type": "application/json",
        },
    )

    try:
        with urllib.request.urlopen(request, timeout=None) as response:
            response.read()
        return 0
    except urllib.error.HTTPError as error:
        message = error.read().decode("utf-8", errors="replace")
        print("vssh: local code bridge rejected the request:", message, file=sys.stderr)
        return 1
    except Exception as error:
        print("vssh: failed to reach local code bridge: {}".format(error), file=sys.stderr)
        return 1


if __name__ == "__main__":
    raise SystemExit(main())
"#;

} // verus!
