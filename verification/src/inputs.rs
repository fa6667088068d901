//! Deterministic YAML inputs for benchmarks.
//!
//! Every generator is a pure function of its argument; the patterns are
//! arithmetic, so the same argument always yields the same text.
use vstd::prelude::*;

use crate::text::{decimal, push_decimal, push_str, str_to_string};

verus! {

/// A Kubernetes-style Deployment manifest.
pub const KUBERNETES_DEPLOYMENT: &'static str = "apiVersion: apps/v1
kind: Deployment
metadata:
  name: web-frontend
  namespace: production
  labels:
    app: web-frontend
    tier: frontend
    environment: production
    version: v2.4.1
  annotations:
    deployment.kubernetes.io/revision: \"12\"
    kubectl.kubernetes.io/last-applied-configuration: |
      {\"apiVersion\":\"apps/v1\",\"kind\":\"Deployment\"}
spec:
  replicas: 3
  revisionHistoryLimit: 10
  selector:
    matchLabels:
      app: web-frontend
      tier: frontend
  strategy:
    type: RollingUpdate
    rollingUpdate:
      maxSurge: 1
      maxUnavailable: 0
  template:
    metadata:
      labels:
        app: web-frontend
        tier: frontend
        version: v2.4.1
    spec:
      serviceAccountName: web-frontend
      terminationGracePeriodSeconds: 30
      containers:
        - name: web
          image: registry.example.com/web-frontend:v2.4.1
          imagePullPolicy: IfNotPresent
          ports:
            - name: http
              containerPort: 8080
              protocol: TCP
            - name: metrics
              containerPort: 9090
              protocol: TCP
          env:
            - name: NODE_ENV
              value: production
            - name: LOG_LEVEL
              value: info
            - name: DATABASE_URL
              valueFrom:
                secretKeyRef:
                  name: db-credentials
                  key: url
            - name: REDIS_HOST
              valueFrom:
                configMapKeyRef:
                  name: redis-config
                  key: host
            - name: POD_NAME
              valueFrom:
                fieldRef:
                  fieldPath: metadata.name
          resources:
            requests:
              cpu: 250m
              memory: 256Mi
            limits:
              cpu: \"1\"
              memory: 512Mi
          livenessProbe:
            httpGet:
              path: /healthz
              port: http
            initialDelaySeconds: 15
            periodSeconds: 10
            timeoutSeconds: 3
            failureThreshold: 3
          readinessProbe:
            httpGet:
              path: /ready
              port: http
            initialDelaySeconds: 5
            periodSeconds: 5
            timeoutSeconds: 2
            successThreshold: 1
          volumeMounts:
            - name: config
              mountPath: /etc/app/config
              readOnly: true
            - name: tmp
              mountPath: /tmp
        - name: sidecar
          image: registry.example.com/log-collector:v1.2.0
          resources:
            requests:
              cpu: 50m
              memory: 64Mi
            limits:
              cpu: 100m
              memory: 128Mi
          volumeMounts:
            - name: tmp
              mountPath: /tmp
              readOnly: true
      volumes:
        - name: config
          configMap:
            name: web-frontend-config
        - name: tmp
          emptyDir:
            sizeLimit: 100Mi
      affinity:
        podAntiAffinity:
          preferredDuringSchedulingIgnoredDuringExecution:
            - weight: 100
              podAffinityTerm:
                labelSelector:
                  matchExpressions:
                    - key: app
                      operator: In
                      values:
                        - web-frontend
                topologyKey: kubernetes.io/hostname
";

/// The Kubernetes-style Deployment manifest, as an owned string.
pub fn kubernetes_deployment() -> (r: String)
    ensures
        r@ == KUBERNETES_DEPLOYMENT@,
{
    str_to_string(KUBERNETES_DEPLOYMENT)
}

/// The text of record `i`: an id, a quoted name, a decimal value, a
/// boolean and two tags.
pub open spec fn record_text(i: nat) -> Seq<char> {
    record_head(i) + record_tail(i)
}

/// The id, name and value lines of record `i`.
pub open spec fn record_head(i: nat) -> Seq<char> {
    "  - id: "@ + decimal(i) + "\n    name: \"record-"@ + decimal(i) + "\"\n    value: "@ + decimal(
        (i * 17) % 1000,
    ) + "."@ + decimal((i * 31) % 100)
}

/// The active flag and the tags of record `i`.
pub open spec fn record_tail(i: nat) -> Seq<char> {
    "\n    active: "@ + (if i % 2 == 0 {
        "true"@
    } else {
        "false"@
    }) + "\n"@ + "    tags:\n"@ + "      - tag-"@ + decimal(i % 50) + "\n"@ + "      - tag-"@ + decimal(
        (i * 7) % 50,
    ) + "\n"@
}

/// Records `0..n`, one after the other.
pub open spec fn records_body(n: nat) -> Seq<char>
    decreases n,
{
    if n == 0 {
        seq![]
    } else {
        records_body((n - 1) as nat) + record_text((n - 1) as nat)
    }
}

fn push_record(out: &mut String, i: usize)
    requires
        i * 31 <= usize::MAX,
    ensures
        final(out)@ == old(out)@ + record_text(i as nat),
{
    let ghost before = out@;
    assert(i * 17 <= i * 31 && i * 7 <= i * 31) by (nonlinear_arith);
    let value_int = (i * 17 % 1000) as u64;
    let value_frac = (i * 31 % 100) as u64;
    let tag_a = (i % 50) as u64;
    let tag_b = (i * 7 % 50) as u64;
    push_str(out, "  - id: ");
    push_decimal(out, i as u64);
    push_str(out, "\n    name: \"record-");
    push_decimal(out, i as u64);
    push_str(out, "\"\n    value: ");
    push_decimal(out, value_int);
    push_str(out, ".");
    push_decimal(out, value_frac);
    assert(out@ =~= before + record_head(i as nat));
    let ghost mid = out@;
    push_str(out, "\n    active: ");
    if i % 2 == 0 {
        push_str(out, "true");
    } else {
        push_str(out, "false");
    }
    push_str(out, "\n");
    push_str(out, "    tags:\n");
    push_str(out, "      - tag-");
    push_decimal(out, tag_a);
    push_str(out, "\n");
    push_str(out, "      - tag-");
    push_decimal(out, tag_b);
    push_str(out, "\n");
    assert(out@ =~= mid + record_tail(i as nat));
    assert(out@ =~= before + record_text(i as nat));
}

/// `n` records with varied field types under a `records:` key.
pub fn records(n: usize) -> (out: String)
    requires
        n <= usize::MAX / 31,
    ensures
        out@ == "records:\n"@ + records_body(n as nat),
{
    let mut out = str_to_string("records:\n");
    let mut i: usize = 0;
    while i < n
        invariant
            i <= n <= usize::MAX / 31,
            out@ == "records:\n"@ + records_body(i as nat),
        decreases n - i,
    {
        assert(i * 31 <= usize::MAX) by (nonlinear_arith)
            requires
                i < n,
                n <= usize::MAX / 31,
        ;
        push_record(&mut out, i);
        i = i + 1;
    }
    out
}

/// `n` copies of two spaces.
pub open spec fn indent_text(n: nat) -> Seq<char>
    decreases n,
{
    if n == 0 {
        seq![]
    } else {
        indent_text((n - 1) as nat) + "  "@
    }
}

/// The lines `level_0:` to `level_{n-1}:`, each indented two spaces deeper.
pub open spec fn nested_levels(n: nat) -> Seq<char>
    decreases n,
{
    if n == 0 {
        seq![]
    } else {
        nested_levels((n - 1) as nat) + indent_text((n - 1) as nat) + "level_"@ + decimal(
            (n - 1) as nat,
        ) + ":\n"@
    }
}

fn push_indent(out: &mut String, n: usize)
    ensures
        final(out)@ == old(out)@ + indent_text(n as nat),
{
    let mut i: usize = 0;
    while i < n
        invariant
            i <= n,
            out@ == old(out)@ + indent_text(i as nat),
        decreases n - i,
    {
        push_str(out, "  ");
        i = i + 1;
    }
}

/// A block mapping nested `depth` levels deep, with a quoted leaf value.
pub fn nested(depth: usize) -> (out: String)
    ensures
        out@ == nested_levels(depth as nat) + indent_text(depth as nat) + "value: \"leaf\"\n"@,
{
    let mut out = String::new();
    let mut d: usize = 0;
    while d < depth
        invariant
            d <= depth,
            out@ == nested_levels(d as nat),
        decreases depth - d,
    {
        let ghost before = out@;
        push_indent(&mut out, d);
        push_str(&mut out, "level_");
        push_decimal(&mut out, d as u64);
        push_str(&mut out, ":\n");
        assert(out@ =~= nested_levels((d + 1) as nat));
        d = d + 1;
    }
    push_indent(&mut out, depth);
    push_str(&mut out, "value: \"leaf\"\n");
    out
}

/// Small objects `0..n`, each with a `k` and a `v` field.
pub open spec fn small_objects_body(n: nat) -> Seq<char>
    decreases n,
{
    if n == 0 {
        seq![]
    } else {
        small_objects_body((n - 1) as nat) + small_object_text((n - 1) as nat)
    }
}

/// The text of small object `i`.
pub open spec fn small_object_text(i: nat) -> Seq<char> {
    "  - k: "@ + decimal(i) + "\n    v: val-"@ + decimal(i) + "\n"@
}

/// Many small two-field objects in a sequence under an `items:` key.
pub fn small_objects(n: usize) -> (out: String)
    ensures
        out@ == "items:\n"@ + small_objects_body(n as nat),
{
    let mut out = str_to_string("items:\n");
    let mut i: usize = 0;
    while i < n
        invariant
            i <= n,
            out@ == "items:\n"@ + small_objects_body(i as nat),
        decreases n - i,
    {
        let ghost before = out@;
        push_str(&mut out, "  - k: ");
        push_decimal(&mut out, i as u64);
        push_str(&mut out, "\n    v: val-");
        push_decimal(&mut out, i as u64);
        push_str(&mut out, "\n");
        assert(out@ =~= before + small_object_text(i as nat));
        i = i + 1;
    }
    out
}

/// The line of the large scalar, without its indentation and line break.
pub const PANGRAM_LINE: &'static str = "The quick brown fox jumps over the lazy dog. ";

/// `k` indented pangram lines.
pub open spec fn pangram_lines(k: nat) -> Seq<char>
    decreases k,
{
    if k == 0 {
        seq![]
    } else {
        pangram_lines((k - 1) as nat) + "  "@ + PANGRAM_LINE@ + "\n"@
    }
}

/// A single literal block scalar of at least `bytes` bytes of content:
/// pangram lines of 48 bytes each, as many as it takes.
pub fn large_scalar(bytes: usize) -> (out: String)
    requires
        bytes <= usize::MAX - 48,
    ensures
        out@ == "content: |\n"@ + pangram_lines(((bytes + 47) / 48) as nat),
{
    let mut out = str_to_string("content: |\n");
    let mut written: usize = 0;
    let mut k: usize = 0;
    while written < bytes
        invariant
            bytes <= usize::MAX - 48,
            written == 48 * k,
            written < bytes + 48,
            out@ == "content: |\n"@ + pangram_lines(k as nat),
        decreases bytes + 48 - written,
    {
        let ghost before = out@;
        push_str(&mut out, "  ");
        push_str(&mut out, PANGRAM_LINE);
        push_str(&mut out, "\n");
        assert(out@ =~= before + ("  "@ + PANGRAM_LINE@ + "\n"@));
        written = written + 48;
        k = k + 1;
    }
    assert(k == (bytes + 47) / 48) by (nonlinear_arith)
        requires
            written == 48 * k,
            written < bytes + 48,
            written >= bytes,
    ;
    out
}

} // verus!
